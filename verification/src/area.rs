//! Query areas: polygons, their bounding boxes and their WKT form.

use vstd::prelude::*;
use vstd::slice::*;
use vstd::string::*;

use crate::geom::Envelope;
use crate::ieee::Real;
use crate::text;
use crate::wkb;
use crate::wkb::Point;

verus! {

/// A query area: a bounding box filter, and the full geometry when it is not
/// its own bounding box.
#[derive(Debug, PartialEq)]
pub struct Area {
    /// WKB of the geometry envelope.
    pub envelope_wkb: Vec<u8>,
    /// WKB of the full geometry when the geometry is not already its envelope.
    pub geometry_wkb: Option<Vec<u8>>,
    /// The bounds `(x_min, y_min, x_max, y_max)` of the envelope.
    pub bounds: (Real, Real, Real, Real),
}

/// Positive infinity.
pub open spec fn infinity() -> Real {
    Real { bits: 0x7ff0_0000_0000_0000 }
}

/// Negative infinity.
pub open spec fn negative_infinity() -> Real {
    Real { bits: 0xfff0_0000_0000_0000 }
}

/// The lesser of `a` and `b`; `a` when they do not differ or `b` is not a
/// number.
pub open spec fn lesser(a: Real, b: Real) -> Real {
    if b.lt(a) {
        b
    } else {
        a
    }
}

/// The greater of `a` and `b`; `a` when they do not differ or `b` is not a
/// number.
pub open spec fn greater(a: Real, b: Real) -> Real {
    if a.lt(b) {
        b
    } else {
        a
    }
}

/// Bounding box of the first `n` points.
pub open spec fn box_of(points: Seq<Point>, n: int) -> Envelope
    decreases n,
{
    if n <= 0 {
        Envelope {
            x_min: infinity(),
            x_max: negative_infinity(),
            y_min: infinity(),
            y_max: negative_infinity(),
        }
    } else {
        let b = box_of(points, n - 1);
        let p = points[n - 1];
        Envelope {
            x_min: lesser(b.x_min, p.0),
            x_max: greater(b.x_max, p.0),
            y_min: lesser(b.y_min, p.1),
            y_max: greater(b.y_max, p.1),
        }
    }
}

/// Whether two points are numerically equal.
pub open spec fn same_point(p: Point, q: Point) -> bool {
    p.0.num_eq(q.0) && p.1.num_eq(q.1)
}

/// A ring without the repeat of its first point at the end.
pub open spec fn open_ring(ring: Seq<Point>) -> Seq<Point> {
    if ring.len() > 1 && same_point(ring[0], ring.last()) {
        ring.drop_last()
    } else {
        ring
    }
}

/// Whether `p` is among `points`.
pub open spec fn has_point(points: Seq<Point>, p: Point) -> bool {
    exists|i: int| 0 <= i < points.len() && same_point(#[trigger] points[i], p)
}

/// Whether the rings are one ring made of exactly the four corners of `b`.
pub open spec fn is_box(rings: Seq<Seq<Point>>, b: Envelope) -> bool {
    let ring = open_ring(rings[0]);
    &&& rings.len() == 1
    &&& ring.len() == 4
    &&& forall|i: int| 0 <= i < 4 ==> has_point(b.corners(), #[trigger] ring[i])
    &&& forall|i: int| 0 <= i < 4 ==> has_point(ring, #[trigger] b.corners()[i])
}

/// Whether `area` describes the polygon with the given rings.
pub open spec fn describes(area: Area, rings: Seq<Seq<Point>>) -> bool {
    let b = box_of(rings[0], rings[0].len() as int);
    &&& area.envelope_wkb@ == wkb::polygon_bytes(seq![wkb::closed_ring(b.corners())])
    &&& area.geometry_wkb is None <==> is_box(rings, b)
    &&& area.geometry_wkb matches Some(g) ==> g@ == wkb::polygon_bytes(rings)
    &&& area.bounds == (b.x_min, b.y_min, b.x_max, b.y_max)
}

fn equal_points(p: &Point, q: &Point) -> (r: bool)
    ensures
        r == same_point(*p, *q),
{
    p.0.equals(&q.0) && p.1.equals(&q.1)
}

fn contains_point(points: &[Point], p: &Point) -> (r: bool)
    ensures
        r == has_point(points@, *p),
{
    let mut i: usize = 0;
    while i < points.len()
        invariant
            i <= points@.len(),
            forall|j: int| 0 <= j < i ==> !same_point(#[trigger] points@[j], *p),
        decreases points@.len() - i,
    {
        if equal_points(&points[i], p) {
            return true;
        }
        i = i + 1;
    }
    false
}

fn all_among(points: &[Point], others: &[Point]) -> (r: bool)
    ensures
        r == (forall|i: int| 0 <= i < points@.len() ==> has_point(others@, #[trigger] points@[i])),
{
    let mut i: usize = 0;
    while i < points.len()
        invariant
            i <= points@.len(),
            forall|j: int| 0 <= j < i ==> has_point(others@, #[trigger] points@[j]),
        decreases points@.len() - i,
    {
        if !contains_point(others, &points[i]) {
            return false;
        }
        i = i + 1;
    }
    true
}

/// Bounding box of a ring.
pub fn bounding_box(points: &[Point]) -> (r: Envelope)
    ensures
        r == box_of(points@, points@.len() as int),
{
    let mut b = Envelope::new(
        Real::from_bits(0x7ff0_0000_0000_0000),
        Real::from_bits(0xfff0_0000_0000_0000),
        Real::from_bits(0x7ff0_0000_0000_0000),
        Real::from_bits(0xfff0_0000_0000_0000),
    );
    let mut i: usize = 0;
    while i < points.len()
        invariant
            i <= points@.len(),
            b == box_of(points@, i as int),
        decreases points@.len() - i,
    {
        let p = points[i];
        b = Envelope {
            x_min: if p.0.less(&b.x_min) { p.0 } else { b.x_min },
            x_max: if b.x_max.less(&p.0) { p.0 } else { b.x_max },
            y_min: if p.1.less(&b.y_min) { p.1 } else { b.y_min },
            y_max: if b.y_max.less(&p.1) { p.1 } else { b.y_max },
        };
        i = i + 1;
    }
    b
}

impl Area {
    /// An area that is a bounding box.
    pub fn from_envelope(envelope: &Envelope) -> (r: Area)
        ensures
            r.envelope_wkb@ == wkb::polygon_bytes(seq![wkb::closed_ring(envelope.corners())]),
            r.geometry_wkb is None,
            r.bounds == (envelope.x_min, envelope.y_min, envelope.x_max, envelope.y_max),
    {
        Area {
            envelope_wkb: envelope.as_wkb_polygon(),
            geometry_wkb: None,
            bounds: (envelope.x_min, envelope.y_min, envelope.x_max, envelope.y_max),
        }
    }

    /// An area from a full polygon: its exterior ring and its holes.  There is
    /// none without a point in the exterior ring.
    pub fn from_polygon(rings: &[Vec<Point>]) -> (r: Option<Area>)
        requires
            rings@.len() <= u32::MAX,
            forall|i: int| 0 <= i < rings@.len() ==> (#[trigger] rings@[i])@.len() <= u32::MAX,
        ensures
            r is Some <==> rings@.len() > 0 && rings@[0]@.len() > 0,
            r matches Some(area) ==> describes(area, wkb::ring_views(rings@)),
    {
        if rings.len() == 0 || rings[0].len() == 0 {
            return None;
        }
        let ghost views = wkb::ring_views(rings@);
        assert(views[0] == rings@[0]@);
        let exterior = rings[0].as_slice();
        let envelope = bounding_box(exterior);
        let n: usize = exterior.len();
        let corners = if n > 1 && equal_points(&exterior[0], &exterior[n - 1]) {
            slice_subrange(exterior, 0, n - 1)
        } else {
            exterior
        };
        assert(corners@ =~= open_ring(views[0]));
        let mut expected: Vec<Point> = Vec::new();
        expected.push((envelope.x_min, envelope.y_min));
        expected.push((envelope.x_min, envelope.y_max));
        expected.push((envelope.x_max, envelope.y_max));
        expected.push((envelope.x_max, envelope.y_min));
        assert(expected@ =~= envelope.corners());
        let boxed: bool = rings.len() == 1 && corners.len() == 4 && all_among(corners, expected.as_slice())
            && all_among(expected.as_slice(), corners);
        assert(boxed == is_box(views, envelope));
        Some(
            Area {
                envelope_wkb: envelope.as_wkb_polygon(),
                geometry_wkb: if boxed {
                    None
                } else {
                    Some(wkb::polygon(rings))
                },
                bounds: (envelope.x_min, envelope.y_min, envelope.x_max, envelope.y_max),
            },
        )
    }
}

// ---------------------------------------------------------------------
// WKT
// ---------------------------------------------------------------------

/// The text between the outermost parentheses of a `POLYGON` in WKT.
pub open spec fn wkt_body(wkt: Seq<char>) -> Option<Seq<char>> {
    let t = text::trim(wkt);
    if t.len() < 7 || text::lower(t.take(7)) != text::lower("polygon"@) {
        None
    } else {
        let body = text::trim(t.skip(7));
        if body.len() < 2 || body[0] != '(' || body.last() != ')' {
            None
        } else {
            Some(body.subrange(1, body.len() - 1))
        }
    }
}

/// The texts of the rings in `s[i..]`: what stands between parentheses, given
/// that `depth` of them are open and the ring read so far is `current`.
/// `None` when the parentheses do not match.
pub open spec fn ring_texts(s: Seq<char>, i: int, depth: int, current: Seq<char>) -> Option<Seq<Seq<char>>>
    decreases s.len() - i,
{
    if i < 0 || i >= s.len() {
        if depth == 0 {
            Some(Seq::empty())
        } else {
            None
        }
    } else if s[i] == '(' {
        if depth == 0 {
            ring_texts(s, i + 1, 1, Seq::empty())
        } else {
            ring_texts(s, i + 1, depth + 1, current.push(s[i]))
        }
    } else if s[i] == ')' {
        if depth == 0 {
            None
        } else if depth == 1 {
            match ring_texts(s, i + 1, 0, current) {
                Some(rest) => Some(seq![current] + rest),
                None => None,
            }
        } else {
            ring_texts(s, i + 1, depth - 1, current.push(s[i]))
        }
    } else {
        ring_texts(s, i + 1, depth, current.push(s[i]))
    }
}

/// End of the word that starts at `i`.
pub open spec fn word_end(s: Seq<char>, i: int) -> int
    decreases s.len() - i,
{
    if i < 0 || i >= s.len() || text::is_space(s[i]) {
        i
    } else {
        word_end(s, i + 1)
    }
}

/// The first two words of a text that starts with a word.
pub open spec fn two_words(s: Seq<char>) -> Option<(Seq<char>, Seq<char>)> {
    let a = word_end(s, 0);
    let b = text::space_end(s, a);
    let c = word_end(s, b);
    if b < c {
        Some((s.subrange(0, a), s.subrange(b, c)))
    } else {
        None
    }
}

/// The coordinate pairs among the first `n` comma separated pieces of a ring;
/// blank pieces are skipped.  `None` when a piece is not a pair.
pub open spec fn pairs_of(parts: Seq<Seq<char>>, n: int) -> Option<Seq<(Seq<char>, Seq<char>)>>
    decreases n,
{
    if n <= 0 {
        Some(Seq::empty())
    } else {
        match pairs_of(parts, n - 1) {
            None => None,
            Some(before) => {
                let piece = text::trim(parts[n - 1]);
                if piece.len() == 0 {
                    Some(before)
                } else {
                    match two_words(piece) {
                        Some(pair) => Some(before.push(pair)),
                        None => None,
                    }
                }
            },
        }
    }
}

/// The coordinate pairs of a ring; a ring has at least one.
pub open spec fn ring_pairs(ring: Seq<char>) -> Option<Seq<(Seq<char>, Seq<char>)>> {
    let parts = text::pieces(ring, ',');
    match pairs_of(parts, parts.len() as int) {
        Some(pairs) => if pairs.len() == 0 {
            None
        } else {
            Some(pairs)
        },
        None => None,
    }
}

/// The coordinate pairs of the first `n` rings.
pub open spec fn all_pairs(rings: Seq<Seq<char>>, n: int) -> Option<Seq<Seq<(Seq<char>, Seq<char>)>>>
    decreases n,
{
    if n <= 0 {
        Some(Seq::empty())
    } else {
        match (all_pairs(rings, n - 1), ring_pairs(rings[n - 1])) {
            (Some(before), Some(pairs)) => Some(before.push(pairs)),
            _ => None,
        }
    }
}

/// The coordinate texts of a WKT polygon, ring by ring.
pub open spec fn wkt_pairs(wkt: Seq<char>) -> Option<Seq<Seq<(Seq<char>, Seq<char>)>>> {
    match wkt_body(wkt) {
        None => None,
        Some(body) => match ring_texts(body, 0, 0, Seq::empty()) {
            None => None,
            Some(rings) => if rings.len() == 0 {
                None
            } else {
                all_pairs(rings, rings.len() as int)
            },
        },
    }
}

/// The texts of coordinate pairs.
pub open spec fn pair_views(pairs: Seq<(String, String)>) -> Seq<(Seq<char>, Seq<char>)> {
    pairs.map_values(|p: (String, String)| (p.0@, p.1@))
}

/// The texts of the coordinate pairs of rings.
pub open spec fn rings_pair_views(rings: Seq<Vec<(String, String)>>) -> Seq<Seq<(Seq<char>, Seq<char>)>> {
    rings.map_values(|r: Vec<(String, String)>| pair_views(r@))
}

fn find_word_end(s: &[char], i: usize) -> (r: usize)
    requires
        i <= s@.len(),
    ensures
        r == word_end(s@, i as int),
        i <= r <= s@.len(),
{
    let mut k: usize = i;
    while k < s.len() && !text::is_space_char(s[k])
        invariant
            i <= k <= s@.len(),
            word_end(s@, i as int) == word_end(s@, k as int),
        decreases s@.len() - k,
    {
        k = k + 1;
    }
    k
}

fn find_space_end(s: &[char], i: usize) -> (r: usize)
    requires
        i <= s@.len(),
    ensures
        r == text::space_end(s@, i as int),
        i <= r <= s@.len(),
{
    let mut k: usize = i;
    while k < s.len() && text::is_space_char(s[k])
        invariant
            i <= k <= s@.len(),
            text::space_end(s@, i as int) == text::space_end(s@, k as int),
        decreases s@.len() - k,
    {
        k = k + 1;
    }
    k
}

fn parse_pair(piece: &[char]) -> (r: Option<(String, String)>)
    ensures
        r matches Some(p) ==> two_words(piece@) == Some((p.0@, p.1@)),
        r is None ==> two_words(piece@) is None,
{
    let a: usize = find_word_end(piece, 0);
    let b: usize = find_space_end(piece, a);
    let c: usize = find_word_end(piece, b);
    if b < c {
        Some((text::text_of(slice_subrange(piece, 0, a)), text::text_of(slice_subrange(piece, b, c))))
    } else {
        None
    }
}

/// The coordinate pairs of a ring as text.
fn parse_wkt_ring(ring: &[char]) -> (r: Option<Vec<(String, String)>>)
    ensures
        r matches Some(v) ==> ring_pairs(ring@) == Some(pair_views(v@)),
        r is None ==> ring_pairs(ring@) is None,
{
    let parts = text::pieces_of(ring, ',');
    let ghost views = text::pieces(ring@, ',');
    let mut points: Vec<(String, String)> = Vec::new();
    let mut i: usize = 0;
    assert(pair_views(points@) =~= Seq::<(Seq<char>, Seq<char>)>::empty());
    while i < parts.len()
        invariant
            i <= parts@.len(),
            text::views(parts@) == views,
            views == text::pieces(ring@, ','),
            pairs_of(views, i as int) == Some(pair_views(points@)),
        decreases parts@.len() - i,
    {
        assert(views[i as int] == parts@[i as int]@);
        let piece = text::trimmed(parts[i].as_slice());
        if piece.len() > 0 {
            match parse_pair(piece) {
                Some(pair) => {
                    let ghost before = pair_views(points@);
                    points.push(pair);
                    assert(pair_views(points@) =~= before.push((pair.0@, pair.1@)));
                },
                None => {
                    proof {
                        lemma_pairs_fail(views, i + 1, views.len() as int);
                    }
                    return None;
                },
            }
        }
        i = i + 1;
    }
    if points.len() == 0 {
        None
    } else {
        Some(points)
    }
}

proof fn lemma_pairs_fail(parts: Seq<Seq<char>>, k: int, n: int)
    requires
        0 <= k <= n,
        pairs_of(parts, k) is None,
    ensures
        pairs_of(parts, n) is None,
    decreases n - k,
{
    if k < n {
        assert(pairs_of(parts, k + 1) is None);
        lemma_pairs_fail(parts, k + 1, n);
    }
}

proof fn lemma_all_pairs_fail(rings: Seq<Seq<char>>, k: int, n: int)
    requires
        0 <= k <= n,
        all_pairs(rings, k) is None,
    ensures
        all_pairs(rings, n) is None,
    decreases n - k,
{
    if k < n {
        assert(all_pairs(rings, k + 1) is None);
        lemma_all_pairs_fail(rings, k + 1, n);
    }
}

/// What a scan has found so far put in front of what is still to come.
spec fn prepend(found: Seq<Seq<char>>, rest: Option<Seq<Seq<char>>>) -> Option<Seq<Seq<char>>> {
    match rest {
        Some(r) => Some(found + r),
        None => None,
    }
}

/// The texts of the rings of a polygon body.
fn split_rings(body: &[char]) -> (r: Option<Vec<Vec<char>>>)
    ensures
        r matches Some(v) ==> ring_texts(body@, 0, 0, Seq::empty()) == Some(text::views(v@)),
        r is None ==> ring_texts(body@, 0, 0, Seq::empty()) is None,
{
    let ghost goal = ring_texts(body@, 0, 0, Seq::empty());
    let mut rings: Vec<Vec<char>> = Vec::new();
    let mut current: Vec<char> = Vec::new();
    let mut depth: usize = 0;
    let mut i: usize = 0;
    let n: usize = body.len();
    proof {
        assert(text::views(rings@) =~= Seq::<Seq<char>>::empty());
        if let Some(g) = goal {
            assert(Seq::<Seq<char>>::empty() + g =~= g);
        }
    }
    while i < n
        invariant
            n == body@.len(),
            i <= n,
            depth <= i,
            goal == ring_texts(body@, 0, 0, Seq::empty()),
            prepend(text::views(rings@), ring_texts(body@, i as int, depth as int, current@)) == goal,
        decreases n - i,
    {
        let c: char = body[i];
        if c == '(' {
            if depth == 0 {
                current = Vec::new();
                depth = 1;
            } else {
                current.push(c);
                depth = depth + 1;
            }
        } else if c == ')' {
            if depth == 0 {
                return None;
            }
            depth = depth - 1;
            if depth == 0 {
                let ghost before = text::views(rings@);
                let ghost ring = current@;
                let done = slice_to_vec(current.as_slice());
                rings.push(done);
                proof {
                    assert(text::views(rings@) =~= before + seq![ring]);
                    if let Some(rest) = ring_texts(body@, i + 1, 0, current@) {
                        assert(before + (seq![ring] + rest) =~= text::views(rings@) + rest);
                    }
                }
            } else {
                current.push(c);
            }
        } else {
            current.push(c);
        }
        i = i + 1;
    }
    if depth == 0 {
        assert(text::views(rings@) + Seq::<Seq<char>>::empty() =~= text::views(rings@));
        Some(rings)
    } else {
        None
    }
}

fn polygon_body(wkt: &[char]) -> (r: Option<Vec<char>>)
    ensures
        r matches Some(b) ==> wkt_body(wkt@) == Some(b@),
        r is None ==> wkt_body(wkt@) is None,
{
    let t = text::trimmed(wkt);
    if t.len() < 7 {
        return None;
    }
    let head = slice_subrange(t, 0, 7);
    assert(head@ =~= t@.take(7));
    if !text::same_ignoring_case(head, "polygon") {
        return None;
    }
    let tail = slice_subrange(t, 7, t.len());
    assert(tail@ =~= t@.skip(7));
    let body = text::trimmed(tail);
    let n: usize = body.len();
    if n < 2 || body[0] != '(' || body[n - 1] != ')' {
        return None;
    }
    Some(slice_to_vec(slice_subrange(body, 1, n - 1)))
}

/// Parse a WKT polygon (`POLYGON ((x y, ...), (hole...))`) into the coordinate
/// texts of its rings, exterior ring first.
///
/// Returns `None` when the text is not a polygon, is `POLYGON EMPTY`, or is
/// malformed.
pub fn parse_wkt_polygon(wkt: &str) -> (r: Option<Vec<Vec<(String, String)>>>)
    ensures
        r matches Some(v) ==> wkt_pairs(wkt@) == Some(rings_pair_views(v@)),
        r is None ==> wkt_pairs(wkt@) is None,
{
    let chars = text::chars_of(wkt);
    let body = match polygon_body(chars.as_slice()) {
        Some(b) => b,
        None => {
            return None;
        },
    };
    let rings = match split_rings(body.as_slice()) {
        Some(v) => v,
        None => {
            return None;
        },
    };
    if rings.len() == 0 {
        return None;
    }
    let ghost views = text::views(rings@);
    let mut out: Vec<Vec<(String, String)>> = Vec::new();
    let mut i: usize = 0;
    assert(rings_pair_views(out@) =~= Seq::<Seq<(Seq<char>, Seq<char>)>>::empty());
    while i < rings.len()
        invariant
            i <= rings@.len(),
            views == text::views(rings@),
            rings@.len() > 0,
            wkt_pairs(wkt@) == all_pairs(views, views.len() as int),
            all_pairs(views, i as int) == Some(rings_pair_views(out@)),
        decreases rings@.len() - i,
    {
        assert(views[i as int] == rings@[i as int]@);
        match parse_wkt_ring(rings[i].as_slice()) {
            Some(pairs) => {
                let ghost before = rings_pair_views(out@);
                out.push(pairs);
                assert(rings_pair_views(out@) =~= before.push(pair_views(pairs@)));
            },
            None => {
                proof {
                    lemma_all_pairs_fail(views, i + 1, views.len() as int);
                }
                return None;
            },
        }
        i = i + 1;
    }
    Some(out)
}

/// The bounding box holds every coordinate of its points that is a number.
pub proof fn box_holds_its_points(points: Seq<Point>, n: int, i: int)
    requires
        0 <= i < n <= points.len(),
    ensures
        !points[i].0.is_nan() ==> !points[i].0.lt(box_of(points, n).x_min) && !box_of(points, n).x_max.lt(points[i].0),
        !points[i].1.is_nan() ==> !points[i].1.lt(box_of(points, n).y_min) && !box_of(points, n).y_max.lt(points[i].1),
    decreases n,
{
    lemma_box_is_numeric(points, n - 1);
    if i < n - 1 {
        box_holds_its_points(points, n - 1, i);
    }
}

proof fn lemma_box_is_numeric(points: Seq<Point>, n: int)
    requires
        0 <= n <= points.len(),
    ensures
        !box_of(points, n).x_min.is_nan(),
        !box_of(points, n).x_max.is_nan(),
        !box_of(points, n).y_min.is_nan(),
        !box_of(points, n).y_max.is_nan(),
    decreases n,
{
    if n > 0 {
        lemma_box_is_numeric(points, n - 1);
    }
}

/// A bounding box is tight: each of its bounds is a coordinate of one of the
/// points, or the infinity that no coordinate passes.
pub proof fn box_bounds_are_coordinates(points: Seq<Point>, n: int)
    requires
        0 <= n <= points.len(),
    ensures
        box_of(points, n).x_min.bits == 0x7ff0_0000_0000_0000 || exists|i: int|
            0 <= i < n && (#[trigger] points[i]).0 == box_of(points, n).x_min,
        box_of(points, n).x_max.bits == 0xfff0_0000_0000_0000 || exists|i: int|
            0 <= i < n && (#[trigger] points[i]).0 == box_of(points, n).x_max,
        box_of(points, n).y_min.bits == 0x7ff0_0000_0000_0000 || exists|i: int|
            0 <= i < n && (#[trigger] points[i]).1 == box_of(points, n).y_min,
        box_of(points, n).y_max.bits == 0xfff0_0000_0000_0000 || exists|i: int|
            0 <= i < n && (#[trigger] points[i]).1 == box_of(points, n).y_max,
    decreases n,
{
    if n > 0 {
        box_bounds_are_coordinates(points, n - 1);
        let p = points[n - 1];
        assert(p.0 == points[n - 1].0 && p.1 == points[n - 1].1);
    }
}

/// The box of a rectangle is the rectangle, whichever way around it is drawn,
/// and needs no geometry besides; the bounds are its least coordinates, then
/// its greatest ones.
pub proof fn a_rectangle_is_its_own_box(area: Area, west: Real, south: Real, east: Real, north: Real)
    requires
        west.lt(east),
        south.lt(north),
        describes(
            area,
            seq![seq![(west, south), (east, south), (east, north), (west, north), (west, south)]],
        ) || describes(
            area,
            seq![seq![(west, south), (west, north), (east, north), (east, south), (west, south)]],
        ),
    ensures
        area.bounds == (west, south, east, north),
        area.geometry_wkb is None,
{
    if describes(area, seq![seq![(west, south), (east, south), (east, north), (west, north), (west, south)]]) {
        lemma_rectangle(west, south, east, north, (east, south), (west, north));
    } else {
        lemma_rectangle(west, south, east, north, (west, north), (east, south));
    }
}

proof fn lemma_rectangle(west: Real, south: Real, east: Real, north: Real, second: Point, fourth: Point)
    requires
        west.lt(east),
        south.lt(north),
        (second == (east, south) && fourth == (west, north)) || (second == (west, north) && fourth == (east, south)),
    ensures
        ({
            let ring = seq![(west, south), second, (east, north), fourth, (west, south)];
            let b = Envelope { x_min: west, x_max: east, y_min: south, y_max: north };
            box_of(seq![ring][0], seq![ring][0].len() as int) == b && is_box(seq![ring], b)
        }),
{
    let ring = seq![(west, south), second, (east, north), fourth, (west, south)];
    reveal_with_fuel(box_of, 6);
    assert(seq![ring][0] == ring);
    let b = box_of(ring, 5);
    lemma_extremes(west, east);
    lemma_extremes(south, north);
    assert(b.x_min == west && b.x_max == east && b.y_min == south && b.y_max == north);
    let open = open_ring(ring);
    assert(same_point(ring[0], ring.last()));
    assert(open =~= seq![(west, south), second, (east, north), fourth]);
    let corners = b.corners();
    assert(same_point(corners[0], open[0]) && same_point(corners[2], open[2]));
    assert(same_point(open[0], corners[0]) && same_point(open[2], corners[2]));
    assert((same_point(corners[3], open[1]) && same_point(corners[1], open[3])) || (same_point(corners[1], open[1])
        && same_point(corners[3], open[3])));
    assert((same_point(open[1], corners[3]) && same_point(open[3], corners[1])) || (same_point(open[1], corners[1])
        && same_point(open[3], corners[3])));
    assert forall|i: int| 0 <= i < 4 implies has_point(corners, #[trigger] open[i]) by {}
    assert forall|i: int| 0 <= i < 4 implies has_point(open, #[trigger] corners[i]) by {}
}

proof fn lemma_extremes(a: Real, b: Real)
    requires
        a.lt(b),
    ensures
        lesser(infinity(), a) == a,
        greater(negative_infinity(), a) == a,
        !a.is_nan() && !b.is_nan(),
{
    assert(infinity().rank() == 0x7ff0_0000_0000_0000);
    assert(negative_infinity().rank() == -0x7ff0_0000_0000_0000);
}

/// A polygon with another number of corners than four, or with a hole, keeps
/// its geometry.
pub proof fn other_polygons_keep_their_geometry(area: Area, rings: Seq<Seq<Point>>)
    requires
        describes(area, rings),
        rings.len() != 1 || (rings[0].len() != 4 && rings[0].len() != 5),
    ensures
        area.geometry_wkb matches Some(g) && g@ == wkb::polygon_bytes(rings),
{
}

/// Whether a text can stand as a coordinate: it is not empty and holds no white
/// space, no comma and no parenthesis.
pub open spec fn is_word(s: Seq<char>) -> bool {
    &&& s.len() > 0
    &&& forall|i: int|
        0 <= i < s.len() ==> !text::is_space(#[trigger] s[i]) && s[i] != ',' && s[i] != '(' && s[i] != ')'
}

/// A coordinate pair as it stands in WKT.
pub open spec fn pair_text(pair: (Seq<char>, Seq<char>)) -> Seq<char> {
    pair.0 + seq![' '] + pair.1
}

/// The coordinate pairs of a ring as they stand in WKT.
pub open spec fn ring_text(pairs: Seq<(Seq<char>, Seq<char>)>) -> Seq<char> {
    text::join(pairs.map_values(|p: (Seq<char>, Seq<char>)| pair_text(p)), seq![','])
}

/// The rings of a polygon as they stand in WKT, each one in parentheses.
pub open spec fn rings_text(rings: Seq<Seq<(Seq<char>, Seq<char>)>>) -> Seq<char>
    decreases rings.len(),
{
    if rings.len() == 0 {
        Seq::empty()
    } else if rings.len() == 1 {
        seq!['('] + ring_text(rings[0]) + seq![')']
    } else {
        seq!['('] + ring_text(rings[0]) + seq![')', ',', ' '] + rings_text(rings.drop_first())
    }
}

/// Whether a ring has a point, and every coordinate of it is a word.
pub open spec fn writable_ring(pairs: Seq<(Seq<char>, Seq<char>)>) -> bool {
    &&& pairs.len() > 0
    &&& forall|k: int| 0 <= k < pairs.len() ==> is_word((#[trigger] pairs[k]).0) && is_word(pairs[k].1)
}

/// Whether every ring has a point, and every coordinate is a word.
pub open spec fn writable(rings: Seq<Seq<(Seq<char>, Seq<char>)>>) -> bool {
    forall|i: int| 0 <= i < rings.len() ==> writable_ring(#[trigger] rings[i])
}

proof fn lemma_word_end_is(s: Seq<char>, i: int, k: int)
    requires
        0 <= i <= k <= s.len(),
        forall|j: int| i <= j < k ==> !text::is_space(#[trigger] s[j]),
        k < s.len() ==> text::is_space(s[k]),
    ensures
        word_end(s, i) == k,
    decreases k - i,
{
    if i < k {
        assert(!text::is_space(s[i]));
        lemma_word_end_is(s, i + 1, k);
    }
}

proof fn lemma_pair_text(pair: (Seq<char>, Seq<char>))
    requires
        is_word(pair.0),
        is_word(pair.1),
    ensures
        text::trim(pair_text(pair)) == pair_text(pair),
        two_words(pair_text(pair)) == Some(pair),
        pair_text(pair).len() > 0,
        forall|i: int|
            0 <= i < pair_text(pair).len() ==> (#[trigger] pair_text(pair)[i]) != ',' && pair_text(pair)[i] != '('
                && pair_text(pair)[i] != ')',
{
    let s = pair_text(pair);
    let a = pair.0.len() as int;
    let n = s.len() as int;
    assert(text::is_space(' '));
    assert forall|j: int| 0 <= j < n implies s[j] != ',' && s[j] != '(' && s[j] != ')' && (j != a ==> !text::is_space(
        #[trigger] s[j],
    )) by {
        if j < a {
            assert(s[j] == pair.0[j]);
        } else if j > a {
            assert(s[j] == pair.1[j - a - 1]);
        }
    }
    assert(s[a] == ' ');
    lemma_word_end_is(s, 0, a);
    assert(!text::is_space(s[a + 1]));
    assert(text::space_end(s, a) == a + 1) by {
        reveal_with_fuel(text::space_end, 2);
    }
    lemma_word_end_is(s, a + 1, n);
    assert(s.subrange(0, a) =~= pair.0);
    assert(s.subrange(a + 1, n) =~= pair.1);
    let none = Seq::<char>::empty();
    assert(none + s + none =~= s);
    text::white_space_around_a_text_is_trimmed(none, s, none);
}

proof fn lemma_pairs_read_back(pairs: Seq<(Seq<char>, Seq<char>)>, n: int)
    requires
        0 <= n <= pairs.len(),
        forall|k: int| 0 <= k < pairs.len() ==> is_word((#[trigger] pairs[k]).0) && is_word(pairs[k].1),
    ensures
        pairs_of(pairs.map_values(|p: (Seq<char>, Seq<char>)| pair_text(p)), n) == Some(pairs.take(n)),
    decreases n,
{
    if n > 0 {
        lemma_pairs_read_back(pairs, n - 1);
        lemma_pair_text(pairs[n - 1]);
        assert(pairs.take(n) =~= pairs.take(n - 1).push(pairs[n - 1]));
    } else {
        assert(pairs.take(0) =~= Seq::<(Seq<char>, Seq<char>)>::empty());
    }
}

proof fn lemma_ring_text(pairs: Seq<(Seq<char>, Seq<char>)>)
    requires
        pairs.len() > 0,
        forall|k: int| 0 <= k < pairs.len() ==> is_word((#[trigger] pairs[k]).0) && is_word(pairs[k].1),
    ensures
        ring_pairs(ring_text(pairs)) == Some(pairs),
        forall|i: int|
            0 <= i < ring_text(pairs).len() ==> (#[trigger] ring_text(pairs)[i]) != '(' && ring_text(pairs)[i] != ')',
{
    let items = pairs.map_values(|p: (Seq<char>, Seq<char>)| pair_text(p));
    assert forall|i: int| 0 <= i < items.len() implies !(#[trigger] items[i]).contains(',') by {
        lemma_pair_text(pairs[i]);
        assert(items[i] == pair_text(pairs[i]));
    }
    text::lemma_pieces_of_join(items, ',', items.len() as int);
    assert(items.take(items.len() as int) =~= items);
    lemma_pairs_read_back(pairs, pairs.len() as int);
    assert(pairs.take(pairs.len() as int) =~= pairs);
    lemma_no_parentheses(pairs, pairs.len() as int);
}

proof fn lemma_no_parentheses(pairs: Seq<(Seq<char>, Seq<char>)>, n: int)
    requires
        0 <= n <= pairs.len(),
        forall|k: int| 0 <= k < pairs.len() ==> is_word((#[trigger] pairs[k]).0) && is_word(pairs[k].1),
    ensures
        ({
            let s = text::joined(pairs.map_values(|p: (Seq<char>, Seq<char>)| pair_text(p)), seq![','], n);
            forall|i: int| 0 <= i < s.len() ==> (#[trigger] s[i]) != '(' && s[i] != ')'
        }),
    decreases n,
{
    let items = pairs.map_values(|p: (Seq<char>, Seq<char>)| pair_text(p));
    if n > 0 {
        lemma_no_parentheses(pairs, n - 1);
        lemma_pair_text(pairs[n - 1]);
        let before = text::joined(items, seq![','], n - 1);
        let last = pair_text(pairs[n - 1]);
        assert(items[n - 1] == last);
        if n > 1 {
            let s = before + seq![','] + last;
            assert forall|i: int| 0 <= i < s.len() implies (#[trigger] s[i]) != '(' && s[i] != ')' by {
                if i < before.len() {
                    assert(s[i] == before[i]);
                } else if i > before.len() {
                    assert(s[i] == last[i - before.len() - 1]);
                }
            }
        }
    }
}

/// The rings that follow an open parenthesis: the text up to the one that
/// closes it, then what comes behind.
proof fn lemma_open_ring(s: Seq<char>, i: int, e: int, current: Seq<char>)
    requires
        0 <= i <= e < s.len(),
        forall|j: int| i <= j < e ==> (#[trigger] s[j]) != '(' && s[j] != ')',
        s[e] == ')',
    ensures
        ({
            let ring = current + s.subrange(i, e);
            ring_texts(s, i, 1, current) == (match ring_texts(s, e + 1, 0, ring) {
                Some(rest) => Some(seq![ring] + rest),
                None => None,
            })
        }),
    decreases e - i,
{
    if i < e {
        lemma_open_ring(s, i + 1, e, current.push(s[i]));
        assert(current.push(s[i]) + s.subrange(i + 1, e) =~= current + s.subrange(i, e));
    } else {
        assert(current + s.subrange(i, e) =~= current);
    }
}

proof fn lemma_rings_text(front: Seq<char>, rings: Seq<Seq<(Seq<char>, Seq<char>)>>, current: Seq<char>)
    requires
        rings.len() > 0,
        writable(rings),
    ensures
        ring_texts(front + rings_text(rings), front.len() as int, 0, current) == Some(
            rings.map_values(|r: Seq<(Seq<char>, Seq<char>)>| ring_text(r)),
        ),
    decreases rings.len(),
{
    let ring = ring_text(rings[0]);
    assert(writable_ring(rings[0]));
    lemma_ring_text(rings[0]);
    let s = front + rings_text(rings);
    let i = front.len() as int;
    let e = i + 1 + ring.len();
    let texts = rings.map_values(|r: Seq<(Seq<char>, Seq<char>)>| ring_text(r));
    assert(s[i] == '(');
    assert forall|j: int| i + 1 <= j < e implies (#[trigger] s[j]) != '(' && s[j] != ')' by {
        assert(s[j] == ring[j - i - 1]);
    }
    assert(s[e] == ')');
    lemma_open_ring(s, i + 1, e, Seq::empty());
    assert(Seq::<char>::empty() + s.subrange(i + 1, e) =~= ring);
    assert(ring_texts(s, i, 0, current) == ring_texts(s, i + 1, 1, Seq::empty()));
    if rings.len() == 1 {
        assert(s.len() == e + 1);
        assert(ring_texts(s, e + 1, 0, ring) == Some(Seq::<Seq<char>>::empty()));
        assert(seq![ring] + Seq::<Seq<char>>::empty() =~= texts);
    } else {
        let tail = rings.drop_first();
        assert forall|a: int| 0 <= a < tail.len() implies writable_ring(#[trigger] tail[a]) by {
            assert(tail[a] == rings[a + 1]);
        }
        let head = front + seq!['('] + ring + seq![')', ',', ' '];
        assert(s =~= head + rings_text(tail));
        lemma_rings_text(head, tail, ring.push(',').push(' '));
        assert(s[e + 1] == ',' && s[e + 2] == ' ');
        assert(ring_texts(s, e + 1, 0, ring) == ring_texts(s, e + 2, 0, ring.push(',')));
        assert(ring_texts(s, e + 2, 0, ring.push(',')) == ring_texts(s, e + 3, 0, ring.push(',').push(' ')));
        assert(head.len() == e + 3);
        let rest = tail.map_values(|r: Seq<(Seq<char>, Seq<char>)>| ring_text(r));
        assert(seq![ring] + rest =~= texts);
    }
}

proof fn lemma_all_read_back(rings: Seq<Seq<(Seq<char>, Seq<char>)>>, n: int)
    requires
        0 <= n <= rings.len(),
        writable(rings),
    ensures
        all_pairs(rings.map_values(|r: Seq<(Seq<char>, Seq<char>)>| ring_text(r)), n) == Some(rings.take(n)),
    decreases n,
{
    if n > 0 {
        lemma_all_read_back(rings, n - 1);
        assert(writable_ring(rings[n - 1]));
        lemma_ring_text(rings[n - 1]);
        assert(rings.take(n) =~= rings.take(n - 1).push(rings[n - 1]));
    } else {
        assert(rings.take(0) =~= Seq::<Seq<(Seq<char>, Seq<char>)>>::empty());
    }
}

/// A polygon written in WKT reads back as its rings, in their order and with
/// the two coordinates of each point in theirs.
pub proof fn polygons_read_back(rings: Seq<Seq<(Seq<char>, Seq<char>)>>)
    requires
        rings.len() > 0,
        writable(rings),
    ensures
        wkt_pairs("POLYGON"@ + seq![' ', '('] + rings_text(rings) + seq![')']) == Some(rings),
{
    reveal_strlit("POLYGON");
    reveal_strlit("polygon");
    let none = Seq::<char>::empty();
    let blank = seq![' '];
    let inner = rings_text(rings);
    let body = seq!['('] + inner + seq![')'];
    let word = "POLYGON"@;
    assert(word.len() == 7 && "polygon"@.len() == 7);
    let wkt = word + seq![' ', '('] + inner + seq![')'];
    assert(wkt =~= word + blank + body);
    assert(none + wkt + none =~= wkt);
    assert(text::is_space(' ') && !text::is_space('P') && !text::is_space(')') && !text::is_space('('));
    assert(wkt[0] == 'P' && wkt.last() == ')');
    text::white_space_around_a_text_is_trimmed(none, wkt, none);
    assert(wkt.take(7) =~= word);
    assert(text::lower(word) =~= text::lower("polygon"@));
    assert(wkt.skip(7) =~= blank + body + none);
    assert(body[0] == '(' && body.last() == ')');
    text::white_space_around_a_text_is_trimmed(blank, body, none);
    assert(body.subrange(1, body.len() - 1) =~= inner);
    assert(wkt_body(wkt) == Some(inner));
    lemma_rings_text(none, rings, none);
    assert(none + inner =~= inner);
    lemma_all_read_back(rings, rings.len() as int);
    assert(rings.take(rings.len() as int) =~= rings);
}

} // verus!
