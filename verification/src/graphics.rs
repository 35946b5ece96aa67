//! Colours of the EGA palette and the drawing operations that the renderers emit.

use vstd::prelude::*;

verus! {

/// An RGB colour.
#[derive(Clone, Copy, Debug, PartialEq, Eq, Structural)]
pub struct Colour {
    pub r: u8,
    pub g: u8,
    pub b: u8,
}

/// The 16 colours of the EGA palette, as (red, green, blue).
pub open spec fn ega_rgb(c: int) -> (u8, u8, u8) {
    if c == 0 { (0, 0, 0) }
    else if c == 1 { (0, 0, 170) }
    else if c == 2 { (0, 170, 0) }
    else if c == 3 { (0, 170, 170) }
    else if c == 4 { (170, 0, 0) }
    else if c == 5 { (170, 0, 170) }
    else if c == 6 { (170, 85, 0) }
    else if c == 7 { (170, 170, 170) }
    else if c == 8 { (85, 85, 85) }
    else if c == 9 { (85, 85, 255) }
    else if c == 10 { (85, 255, 85) }
    else if c == 11 { (85, 255, 255) }
    else if c == 12 { (255, 85, 85) }
    else if c == 13 { (255, 85, 255) }
    else if c == 14 { (255, 255, 85) }
    else { (255, 255, 255) }
}

/// The colour of EGA palette index `c`.
pub open spec fn ega_colour(c: int) -> Colour {
    Colour { r: ega_rgb(c).0, g: ega_rgb(c).1, b: ega_rgb(c).2 }
}

impl Colour {
    /// The colour of EGA palette index `c` (black, blue, green, cyan, red, magenta,
    /// brown, light grey, dark grey, bright blue, bright green, bright cyan,
    /// bright red, bright magenta, bright yellow, white).
    pub fn from_ega(c: u8) -> (colour: Colour)
        requires
            c < 16,
        ensures
            colour == ega_colour(c as int),
    {
        let (r, g, b): (u8, u8, u8) = match c {
            0 => (0, 0, 0),
            1 => (0, 0, 170),
            2 => (0, 170, 0),
            3 => (0, 170, 170),
            4 => (170, 0, 0),
            5 => (170, 0, 170),
            6 => (170, 85, 0),
            7 => (170, 170, 170),
            8 => (85, 85, 85),
            9 => (85, 85, 255),
            10 => (85, 255, 85),
            11 => (85, 255, 255),
            12 => (255, 85, 85),
            13 => (255, 85, 255),
            14 => (255, 255, 85),
            _ => (255, 255, 255),
        };
        Colour { r, g, b }
    }
}

/// One drawing operation on the screen canvas.
#[derive(Clone, Copy, Debug, PartialEq, Eq, Structural)]
pub enum DrawOp {
    /// Set the colour used by later points.
    SetColour(Colour),
    /// Draw one point in the current colour.
    Point(i32, i32),
    /// Flood fill the white region containing the point with the current colour.
    FloodFill(i32, i32),
}

} // verus!

verus! {

// ---------------------------------------------------------------------------
// Flood fill on the picture canvas: 320 by 190 pixels, each `pitch` bytes, the
// first three being red, green and blue.

/// Whether a point lies on the canvas.
pub open spec fn in_canvas(p: (i32, i32)) -> bool {
    0 <= p.0 < 320 && 0 <= p.1 < 190
}

/// The position of a point's pixel, row by row.
pub open spec fn pixel_index(p: (i32, i32)) -> int {
    p.1 * 320 + p.0
}

/// Whether pixel `i` is white.
pub open spec fn is_white(px: Seq<u8>, pitch: int, i: int) -> bool {
    px[i * pitch] == 255 && px[i * pitch + 1] == 255 && px[i * pitch + 2] == 255
}

/// Whether the pixel at `p` is white.
pub open spec fn white_at(px: Seq<u8>, pitch: int, p: (i32, i32)) -> bool {
    is_white(px, pitch, pixel_index(p))
}

/// Neighbour `d` of `p`: right, down, left, up.
pub open spec fn neighbour(p: (i32, i32), d: int) -> (i32, i32) {
    if d == 0 {
        ((p.0 + 1) as i32, p.1)
    } else if d == 1 {
        (p.0, (p.1 + 1) as i32)
    } else if d == 2 {
        ((p.0 - 1) as i32, p.1)
    } else {
        (p.0, (p.1 - 1) as i32)
    }
}

/// The number of white pixels among the first `n`.
pub open spec fn white_count(px: Seq<u8>, pitch: int, n: int) -> nat
    decreases n,
{
    if n <= 0 {
        0
    } else {
        white_count(px, pitch, n - 1) + if is_white(px, pitch, n - 1) {
            1nat
        } else {
            0nat
        }
    }
}

proof fn lemma_pixels_apart(i: int, j: int, pitch: int)
    requires
        3 <= pitch,
        i != j,
        0 <= i,
        0 <= j,
    ensures
        i * pitch != j * pitch,
        i * pitch != j * pitch + 1,
        i * pitch != j * pitch + 2,
{
    if i < j {
        assert(i * pitch + pitch <= j * pitch) by (nonlinear_arith)
            requires
                i < j,
                pitch >= 3,
        ;
    } else {
        assert(j * pitch + pitch <= i * pitch) by (nonlinear_arith)
            requires
                j < i,
                pitch >= 3,
        ;
    }
}

proof fn lemma_count_after_clear(px: Seq<u8>, pitch: int, i: int, n: int)
    requires
        3 <= pitch,
        0 <= i,
        0 <= n,
        i * pitch + 2 < px.len(),
        n * pitch <= px.len(),
    ensures
        white_count(px.update(i * pitch, 0), pitch, n) == if i < n && is_white(px, pitch, i) {
            white_count(px, pitch, n) - 1
        } else {
            white_count(px, pitch, n) as int
        },
    decreases n,
{
    if n > 0 {
        let j = n - 1;
        assert(n * pitch == j * pitch + pitch) by (nonlinear_arith)
            requires
                j == n - 1,
        ;
        lemma_count_after_clear(px, pitch, i, j);
        if j != i {
            lemma_pixels_apart(i, j, pitch);
            assert(is_white(px.update(i * pitch, 0), pitch, j) == is_white(px, pitch, j));
        }
    }
}

/// The bytes of the canvas after the pixels in `filled` are marked: their first
/// byte cleared, every other byte as it was.
pub open spec fn marked(orig: Seq<u8>, pitch: int, filled: Set<int>, b: int) -> u8 {
    if b % pitch == 0 && filled.contains(b / pitch) {
        0
    } else {
        orig[b]
    }
}

proof fn lemma_byte_of_pixel(i: int, pitch: int, r: int)
    requires
        0 <= i,
        0 <= r < pitch,
    ensures
        (i * pitch + r) % pitch == r,
        (i * pitch + r) / pitch == i,
{
    vstd::arithmetic::div_mod::lemma_fundamental_div_mod_converse(i * pitch + r, pitch, i, r);
}

proof fn lemma_white_marked(orig: Seq<u8>, cur: Seq<u8>, pitch: int, filled: Set<int>, i: int)
    requires
        3 <= pitch,
        0 <= i,
        i * pitch + 2 < orig.len(),
        cur.len() == orig.len(),
        forall|b: int| 0 <= b < orig.len() ==> #[trigger] cur[b] == marked(orig, pitch, filled, b),
    ensures
        is_white(cur, pitch, i) == (!filled.contains(i) && is_white(orig, pitch, i)),
{
    lemma_byte_of_pixel(i, pitch, 0);
    lemma_byte_of_pixel(i, pitch, 1);
    lemma_byte_of_pixel(i, pitch, 2);
    assert(cur[i * pitch] == marked(orig, pitch, filled, i * pitch));
    assert(cur[i * pitch + 1] == marked(orig, pitch, filled, i * pitch + 1));
    assert(cur[i * pitch + 2] == marked(orig, pitch, filled, i * pitch + 2));
}

/// Whether point `k` of `points` is a neighbour of a point listed before it.
pub open spec fn next_to_earlier(points: Seq<(i32, i32)>, k: int) -> bool {
    exists|j: int, d: int| 0 <= j < k && 0 <= d < 4 && points[k] == #[trigger] neighbour(points[j], d)
}

/// Whether `q` is a neighbour of one of `points`.
pub open spec fn next_to_listed(points: Seq<(i32, i32)>, q: (i32, i32)) -> bool {
    exists|j: int, d: int| 0 <= j < points.len() && 0 <= d < 4 && q == #[trigger] neighbour(points[j], d)
}

proof fn lemma_next_to_listed_push(points: Seq<(i32, i32)>, r: (i32, i32), q: (i32, i32))
    requires
        next_to_listed(points, q),
    ensures
        next_to_listed(points.push(r), q),
{
    let (j, d) = choose|j: int, d: int| 0 <= j < points.len() && 0 <= d < 4 && q == #[trigger] neighbour(points[j], d);
    assert(points.push(r)[j] == points[j]);
}

/// Fills the white region around (`x`, `y`) as the renderer does: from a stack of
/// points to visit, each white pixel is marked (its first byte cleared) and listed,
/// and its neighbours on the canvas are pushed right, down, left, up. Gives the
/// points to draw in the order they are filled.
pub fn flood_fill(pixels: &mut Vec<u8>, pitch: usize, x: i32, y: i32) -> (points: Vec<(i32, i32)>)
    requires
        3 <= pitch <= 4,
        old(pixels)@.len() >= 320 * 190 * pitch,
        in_canvas((x, y)),
    ensures
        final(pixels)@.len() == old(pixels)@.len(),
        forall|k: int|
            0 <= k < points@.len() ==> in_canvas(#[trigger] points@[k]) && white_at(
                old(pixels)@,
                pitch as int,
                points@[k],
            ) && !white_at(final(pixels)@, pitch as int, points@[k]),
        forall|b: int|
            0 <= b < old(pixels)@.len() && #[trigger] final(pixels)@[b] != old(pixels)@[b] ==> exists|
                k: int,
            | 0 <= k < points@.len() && b == pixel_index(#[trigger] points@[k]) * pitch,
        white_at(old(pixels)@, pitch as int, (x, y)) ==> points@.len() > 0 && points@[0] == (x, y),
        !white_at(old(pixels)@, pitch as int, (x, y)) ==> points@.len() == 0,
        forall|k: int, d: int|
            0 <= k < points@.len() && 0 <= d < 4 && in_canvas(#[trigger] neighbour(points@[k], d))
                ==> !white_at(final(pixels)@, pitch as int, neighbour(points@[k], d)),
        forall|k: int| 0 < k < points@.len() ==> #[trigger] next_to_earlier(points@, k),
        forall|j: int, k: int| 0 <= j < k < points@.len() ==> points@[j] != points@[k],
{
    let ghost orig = pixels@;
    let ghost p = pitch as int;
    let ghost total: int = 320int * 190int;
    let ghost mut filled: Set<int> = Set::empty();
    let mut points: Vec<(i32, i32)> = Vec::new();
    let mut stack: Vec<(i32, i32)> = Vec::new();
    stack.push((x, y));
    assert forall|b: int| 0 <= b < orig.len() implies #[trigger] pixels@[b] == marked(orig, p, filled, b) by {}
    while stack.len() > 0
        invariant
            p == pitch,
            3 <= pitch <= 4,
            total == 320 * 190,
            pixels@.len() == orig.len(),
            pixels.len() == orig.len(),
            orig.len() >= total * p,
            in_canvas((x, y)),
            forall|s: int| 0 <= s < stack@.len() ==> in_canvas(#[trigger] stack@[s]),
            forall|b: int| 0 <= b < orig.len() ==> #[trigger] pixels@[b] == marked(orig, p, filled, b),
            forall|k: int|
                0 <= k < points@.len() ==> in_canvas(#[trigger] points@[k]) && white_at(
                    orig,
                    p,
                    points@[k],
                ) && filled.contains(pixel_index(points@[k])),
            forall|i: int| #[trigger]
                filled.contains(i) ==> exists|k: int|
                    0 <= k < points@.len() && pixel_index(#[trigger] points@[k]) == i,
            points@.len() == 0 ==> (stack@ == seq![(x, y)] || (stack@.len() == 0 && !white_at(
                orig,
                p,
                (x, y),
            ))),
            points@.len() > 0 ==> points@[0] == (x, y) && white_at(orig, p, (x, y)),
            forall|s: int|
                0 <= s < stack@.len() ==> (points@.len() == 0 && stack@[s] == (x, y)) || next_to_listed(
                    points@,
                    #[trigger] stack@[s],
                ),
            forall|k: int| 0 < k < points@.len() ==> #[trigger] next_to_earlier(points@, k),
            forall|j: int, k: int| 0 <= j < k < points@.len() ==> points@[j] != points@[k],
            forall|k: int, d: int|
                0 <= k < points@.len() && 0 <= d < 4 && in_canvas(#[trigger] neighbour(points@[k], d))
                    ==> filled.contains(pixel_index(neighbour(points@[k], d))) || !white_at(
                    orig,
                    p,
                    neighbour(points@[k], d),
                ) || stack@.contains(neighbour(points@[k], d)),
        decreases white_count(pixels@, p, total) * 5 + stack@.len(),
    {
        let ghost stack_before = stack@;
        let q = match stack.pop() {
            Some(q) => q,
            None => (0, 0),
        };
        assert(q == stack_before[stack_before.len() - 1]);
        assert(in_canvas(q));
        let i = (q.1 as usize) * 320 + q.0 as usize;
        assert(i * p + p <= total * p) by (nonlinear_arith)
            requires
                0 <= i < total,
                p >= 3,
        ;
        let offset = i * pitch;
        assert(offset == pixel_index(q) * p);
        proof {
            lemma_white_marked(orig, pixels@, p, filled, i as int);
        }
        if !(pixels[offset] == 255 && pixels[offset + 1] == 255 && pixels[offset + 2] == 255) {
            proof {
                assert forall|k: int, d: int|
                    0 <= k < points@.len() && 0 <= d < 4 && in_canvas(#[trigger] neighbour(points@[k], d))
                    implies filled.contains(pixel_index(neighbour(points@[k], d))) || !white_at(
                    orig,
                    p,
                    neighbour(points@[k], d),
                ) || stack@.contains(neighbour(points@[k], d)) by {
                    let n = neighbour(points@[k], d);
                    if !filled.contains(pixel_index(n)) && white_at(orig, p, n) {
                        assert(stack_before.contains(n));
                        let s = choose|s: int| 0 <= s < stack_before.len() && stack_before[s] == n;
                        if s == stack_before.len() - 1 {
                            assert(n == q);
                        } else {
                            assert(stack@[s] == n);
                        }
                    }
                }
                assert forall|s: int| 0 <= s < stack@.len() implies (points@.len() == 0 && stack@[s] == (x, y))
                    || next_to_listed(points@, #[trigger] stack@[s]) by {
                    assert(stack@[s] == stack_before[s]);
                }
            }
            continue;
        }
        let ghost before = pixels@;
        let ghost filled_before = filled;
        let ghost points_before = points@;
        points.push(q);
        pixels.set(offset, 0);
        proof {
            filled = filled.insert(i as int);
            lemma_count_after_clear(before, p, i as int, total);
        }
        let ghost mid = stack@;
        if q.0 < 319 {
            stack.push((q.0 + 1, q.1));
        }
        assert(stack@ =~= mid + opt(q.0 < 319, neighbour(q, 0)));
        if q.1 < 189 {
            stack.push((q.0, q.1 + 1));
        }
        assert(stack@ =~= mid + opt(q.0 < 319, neighbour(q, 0)) + opt(q.1 < 189, neighbour(q, 1)));
        if q.0 > 0 {
            stack.push((q.0 - 1, q.1));
        }
        assert(stack@ =~= mid + opt(q.0 < 319, neighbour(q, 0)) + opt(q.1 < 189, neighbour(q, 1))
            + opt(q.0 > 0, neighbour(q, 2)));
        if q.1 > 0 {
            stack.push((q.0, q.1 - 1));
        }
        assert(stack@ =~= mid + opt(q.0 < 319, neighbour(q, 0)) + opt(q.1 < 189, neighbour(q, 1))
            + opt(q.0 > 0, neighbour(q, 2)) + opt(q.1 > 0, neighbour(q, 3)));
        proof {
            let last = points@.len() - 1;
            assert(points@ == points_before.push(q));
            let c0: int = if q.0 < 319 { 1 } else { 0 };
            let c1: int = if q.1 < 189 { 1 } else { 0 };
            let c2: int = if q.0 > 0 { 1 } else { 0 };
            assert forall|b: int| 0 <= b < orig.len() implies #[trigger] pixels@[b] == marked(
                orig,
                p,
                filled,
                b,
            ) by {
                vstd::arithmetic::div_mod::lemma_fundamental_div_mod(b, p);
                if b == offset {
                    lemma_byte_of_pixel(i as int, p, 0);
                } else {
                    assert(before[b] == marked(orig, p, filled_before, b));
                    if b % p == 0 && b / p == i {
                        assert(b == p * i);
                        assert(p * i == i * p) by (nonlinear_arith);
                    }
                }
            }
            assert forall|k: int| 0 <= k < points@.len() implies in_canvas(#[trigger] points@[k])
                && white_at(orig, p, points@[k]) && filled.contains(pixel_index(points@[k])) by {
                if k < last {
                    assert(points@[k] == points_before[k]);
                }
            }
            assert forall|k: int| 0 < k < points@.len() implies #[trigger] next_to_earlier(points@, k) by {
                if k < last {
                    assert(next_to_earlier(points_before, k));
                    let (j, d) = choose|j: int, d: int|
                        0 <= j < k && 0 <= d < 4 && points_before[k] == #[trigger] neighbour(points_before[j], d);
                    assert(points@[j] == points_before[j]);
                    assert(points@[k] == points_before[k]);
                    assert(points@[k] == neighbour(points@[j], d));
                } else {
                    assert(stack_before[stack_before.len() - 1] == q);
                    assert(next_to_listed(points_before, q));
                    let (j, d) = choose|j: int, d: int|
                        0 <= j < points_before.len() && 0 <= d < 4 && q == #[trigger] neighbour(points_before[j], d);
                    assert(points@[j] == points_before[j]);
                    assert(points@[k] == neighbour(points@[j], d));
                }
            }
            assert forall|j: int, k: int| 0 <= j < k < points@.len() implies points@[j] != points@[k] by {
                assert(points@[j] == points_before[j]);
                if k < last {
                    assert(points@[k] == points_before[k]);
                } else {
                    assert(filled_before.contains(pixel_index(points_before[j])));
                    assert(!filled_before.contains(i as int));
                    assert(pixel_index(q) == i as int);
                }
            }
            assert forall|s: int| 0 <= s < stack@.len() implies (points@.len() == 0 && stack@[s] == (x, y))
                || next_to_listed(points@, #[trigger] stack@[s]) by {
                let m = mid.len() as int;
                if s < m {
                    assert(stack@[s] == stack_before[s]);
                    assert(points_before.len() > 0);
                    lemma_next_to_listed_push(points_before, q, stack@[s]);
                } else {
                    let t = stack@[s];
                    assert(points@[last] == q);
                    if q.0 < 319 && s == m {
                        assert(t == neighbour(points@[last], 0));
                    } else if q.1 < 189 && s == m + c0 {
                        assert(t == neighbour(points@[last], 1));
                    } else if q.0 > 0 && s == m + c0 + c1 {
                        assert(t == neighbour(points@[last], 2));
                    } else {
                        assert(t == neighbour(points@[last], 3));
                    }
                }
            }
            assert forall|j: int| #[trigger] filled.contains(j) implies exists|k: int|
                0 <= k < points@.len() && pixel_index(#[trigger] points@[k]) == j by {
                if j == i {
                    assert(pixel_index(points@[last]) == j);
                } else {
                    assert(filled_before.contains(j));
                    let k = choose|k: int|
                        0 <= k < points_before.len() && pixel_index(#[trigger] points_before[k]) == j;
                    assert(points@[k] == points_before[k]);
                }
            }
            assert forall|k: int, d: int|
                0 <= k < points@.len() && 0 <= d < 4 && in_canvas(#[trigger] neighbour(points@[k], d))
                implies filled.contains(pixel_index(neighbour(points@[k], d))) || !white_at(
                orig,
                p,
                neighbour(points@[k], d),
            ) || stack@.contains(neighbour(points@[k], d)) by {
                let n = neighbour(points@[k], d);
                let m = mid.len() as int;
                if k == last {
                    if d == 0 {
                        assert(stack@[m] == n);
                    } else if d == 1 {
                        assert(stack@[m + c0] == n);
                    } else if d == 2 {
                        assert(stack@[m + c0 + c1] == n);
                    } else {
                        assert(stack@[m + c0 + c1 + c2] == n);
                    }
                } else if !filled.contains(pixel_index(n)) && white_at(orig, p, n) {
                    assert(points@[k] == points_before[k]);
                    assert(!filled_before.contains(pixel_index(n)));
                    assert(stack_before.contains(n));
                    let s = choose|s: int| 0 <= s < stack_before.len() && stack_before[s] == n;
                    if s == stack_before.len() - 1 {
                        assert(pixel_index(n) == i);
                    }
                    assert(stack@[s] == n);
                }
            }
        }
    }
    proof {
        assert forall|k: int| 0 <= k < points@.len() implies in_canvas(#[trigger] points@[k])
            && white_at(orig, p, points@[k]) && !white_at(pixels@, p, points@[k]) by {
            let pk = points@[k];
            assert(pixel_index(pk) * p + p <= total * p) by (nonlinear_arith)
                requires
                    0 <= pixel_index(pk) < total,
                    p >= 3,
            ;
            lemma_white_marked(orig, pixels@, p, filled, pixel_index(pk));
        }
        assert forall|b: int| 0 <= b < orig.len() && #[trigger] pixels@[b] != orig[b] implies exists|
            k: int,
        | 0 <= k < points@.len() && b == pixel_index(#[trigger] points@[k]) * p by {
            vstd::arithmetic::div_mod::lemma_fundamental_div_mod(b, p);
            assert(filled.contains(b / p));
            let k = choose|k: int| 0 <= k < points@.len() && pixel_index(#[trigger] points@[k]) == b / p;
            assert(b == pixel_index(points@[k]) * p);
        }
        assert forall|k: int, d: int|
            0 <= k < points@.len() && 0 <= d < 4 && in_canvas(#[trigger] neighbour(points@[k], d))
            implies !white_at(pixels@, p, neighbour(points@[k], d)) by {
            let n = neighbour(points@[k], d);
            assert(pixel_index(n) * p + p <= total * p) by (nonlinear_arith)
                requires
                    0 <= pixel_index(n) < total,
                    p >= 3,
            ;
            lemma_white_marked(orig, pixels@, p, filled, pixel_index(n));
        }
        if !white_at(orig, p, (x, y)) {
            if points@.len() > 0 {
                assert(white_at(orig, p, points@[0]));
            }
        }
    }
    points
}

/// The one-point sequence of `v` where `b` holds, else the empty one.
pub open spec fn opt(b: bool, v: (i32, i32)) -> Seq<(i32, i32)> {
    if b {
        seq![v]
    } else {
        Seq::empty()
    }
}

} // verus!
