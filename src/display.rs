use vstd::prelude::*;
use crate::hardware::TransportFailure;

verus! {

/// Panel width in pixels.
pub const WIDTH: isize = 32;

/// Panel height in pixels.
pub const HEIGHT: isize = 128;

/// Bytes in the packed frame: one bit per pixel.
pub const DISPLAY_BUFFER_SIZE: usize = 512;

/// A position in panel coordinates; it may lie off the panel.
#[derive(PartialEq, Eq, Structural, Clone, Copy, Debug)]
pub struct Point {
    pub x: isize,
    pub y: isize,
}

/// The two levels a pixel can have.
#[derive(PartialEq, Eq, Structural, Clone, Copy, Debug)]
pub enum Color {
    Black,
    White,
}

/// Why a pixel could not be read.
#[derive(PartialEq, Eq, Structural, Clone, Copy, Debug)]
pub enum PixelError {
    /// The point's byte lies outside the frame.
    OutOfRange,
}

/// Number of pixels the frame holds.
pub open spec fn pixel_count() -> int {
    8 * DISPLAY_BUFFER_SIZE as int
}

/// Row-major position of a point's bit in the frame. Its byte is
/// `y * (WIDTH / 8) + x / 8` and its bit within that byte is `x mod 8`
/// (see `lemma_pixel_address`).
pub open spec fn pixel_index(p: Point) -> int {
    p.y * (WIDTH as int) + p.x
}

/// A point is addressable when its byte lies inside the frame.
pub open spec fn in_range(p: Point) -> bool {
    0 <= pixel_index(p) < pixel_count()
}

/// Bit `k` (0 = least significant) of a byte.
pub open spec fn bit_set(b: u8, k: u8) -> bool {
    (b >> k) & 1u8 == 1u8
}

/// The color of the pixel at row-major position `i` of a frame.
pub open spec fn color_at(bytes: Seq<u8>, i: int) -> Color {
    if bit_set(bytes[i / 8], (i % 8) as u8) {
        Color::White
    } else {
        Color::Black
    }
}

/// What reading the pixel at `p` gives.
pub open spec fn pixel_read(bytes: Seq<u8>, p: Point) -> Result<Color, PixelError> {
    if in_range(p) {
        Ok(color_at(bytes, pixel_index(p)))
    } else {
        Err(PixelError::OutOfRange)
    }
}

/// A byte with bit `k` set to the given color.
pub open spec fn painted_byte(b: u8, k: u8, c: Color) -> u8 {
    match c {
        Color::White => b | (1u8 << k),
        Color::Black => b & !(1u8 << k),
    }
}

/// The frame after writing `c` at `p`; unchanged when `p` is not addressable.
pub open spec fn with_pixel(bytes: Seq<u8>, p: Point, c: Color) -> Seq<u8> {
    if in_range(p) {
        let i = pixel_index(p);
        bytes.update(i / 8, painted_byte(bytes[i / 8], (i % 8) as u8, c))
    } else {
        bytes
    }
}

/// The other color.
pub open spec fn inverse(c: Color) -> Color {
    match c {
        Color::White => Color::Black,
        Color::Black => Color::White,
    }
}

/// The frame after flipping the pixel at `p`; unchanged when `p` is not
/// addressable.
pub open spec fn toggled(bytes: Seq<u8>, p: Point) -> Seq<u8> {
    match pixel_read(bytes, p) {
        Ok(c) => with_pixel(bytes, p, inverse(c)),
        Err(_) => bytes,
    }
}

/// A frame of `DISPLAY_BUFFER_SIZE` bytes all equal to `b`.
pub open spec fn uniform(b: u8) -> Seq<u8> {
    Seq::new(DISPLAY_BUFFER_SIZE as nat, |_i: int| b)
}

/// Every pixel of the frame has color `c`.
pub open spec fn all_pixels(bytes: Seq<u8>, c: Color) -> bool {
    forall|i: int| 0 <= i < pixel_count() ==> #[trigger] color_at(bytes, i) == c
}

/// The spec's byte/bit form of the address agrees with the row-major index.
pub proof fn lemma_pixel_address(p: Point)
    ensures
        pixel_index(p) / 8 == p.y * (WIDTH as int / 8) + p.x / 8,
        pixel_index(p) % 8 == p.x % 8,
{
    let y = p.y as int;
    let x = p.x as int;
    assert((y * 32 + x) / 8 == y * 4 + x / 8 && (y * 32 + x) % 8 == x % 8) by {
        vstd::arithmetic::div_mod::lemma_fundamental_div_mod(x, 8);
        vstd::arithmetic::div_mod::lemma_fundamental_div_mod_converse(
            y * 32 + x,
            8,
            y * 4 + x / 8,
            x % 8,
        );
    }
}

proof fn lemma_bit_of_painted(b: u8, k: u8, j: u8, c: Color)
    requires
        k < 8,
        j < 8,
    ensures
        bit_set(painted_byte(b, k, c), j) == if j == k {
            c == Color::White
        } else {
            bit_set(b, j)
        },
{
    match c {
        Color::White => {
            assert(((b | (1u8 << k)) >> j) & 1u8 == 1u8 <==> (j == k || (b >> j) & 1u8 == 1u8))
                by (bit_vector)
                requires
                    k < 8,
                    j < 8,
            ;
        },
        Color::Black => {
            assert(((b & !(1u8 << k)) >> j) & 1u8 == 1u8 <==> (j != k && (b >> j) & 1u8 == 1u8))
                by (bit_vector)
                requires
                    k < 8,
                    j < 8,
            ;
        },
    }
}

proof fn lemma_mask_test(b: u8, k: u8)
    requires
        k < 8,
    ensures
        (b & (1u8 << k) > 0) == bit_set(b, k),
{
    assert((b & (1u8 << k) > 0) == ((b >> k) & 1u8 == 1u8)) by (bit_vector)
        requires
            k < 8,
    ;
}

proof fn lemma_uniform_bits(j: u8)
    requires
        j < 8,
    ensures
        !bit_set(0u8, j),
        bit_set(255u8, j),
{
    assert(((0u8 >> j) & 1u8 != 1u8) && ((255u8 >> j) & 1u8 == 1u8)) by (bit_vector)
        requires
            j < 8,
    ;
}

/// Two bytes that agree on every bit are equal.
proof fn lemma_bits_determine_byte(a: u8, b: u8)
    requires
        forall|j: u8| j < 8 ==> bit_set(a, j) == bit_set(b, j),
    ensures
        a == b,
{
    assert(bit_set(a, 0) == bit_set(b, 0));
    assert(bit_set(a, 1) == bit_set(b, 1));
    assert(bit_set(a, 2) == bit_set(b, 2));
    assert(bit_set(a, 3) == bit_set(b, 3));
    assert(bit_set(a, 4) == bit_set(b, 4));
    assert(bit_set(a, 5) == bit_set(b, 5));
    assert(bit_set(a, 6) == bit_set(b, 6));
    assert(bit_set(a, 7) == bit_set(b, 7));
    assert(a == b) by (bit_vector)
        requires
            ((a >> 0u8) & 1u8 == 1u8) == ((b >> 0u8) & 1u8 == 1u8),
            ((a >> 1u8) & 1u8 == 1u8) == ((b >> 1u8) & 1u8 == 1u8),
            ((a >> 2u8) & 1u8 == 1u8) == ((b >> 2u8) & 1u8 == 1u8),
            ((a >> 3u8) & 1u8 == 1u8) == ((b >> 3u8) & 1u8 == 1u8),
            ((a >> 4u8) & 1u8 == 1u8) == ((b >> 4u8) & 1u8 == 1u8),
            ((a >> 5u8) & 1u8 == 1u8) == ((b >> 5u8) & 1u8 == 1u8),
            ((a >> 6u8) & 1u8 == 1u8) == ((b >> 6u8) & 1u8 == 1u8),
            ((a >> 7u8) & 1u8 == 1u8) == ((b >> 7u8) & 1u8 == 1u8),
    ;
}

/// Two frames whose pixels all agree are the same bytes.
pub proof fn lemma_pixels_determine_frame(a: Seq<u8>, b: Seq<u8>)
    requires
        a.len() == DISPLAY_BUFFER_SIZE,
        b.len() == DISPLAY_BUFFER_SIZE,
        forall|i: int| 0 <= i < pixel_count() ==> #[trigger] color_at(a, i) == color_at(b, i),
    ensures
        a == b,
{
    assert forall|n: int| 0 <= n < DISPLAY_BUFFER_SIZE implies a[n] == b[n] by {
        assert forall|j: u8| j < 8 implies bit_set(a[n], j) == bit_set(b[n], j) by {
            let i = 8 * n + j as int;
            assert(i / 8 == n && i % 8 == j as int);
            assert(color_at(a, i) == color_at(b, i));
        }
        lemma_bits_determine_byte(a[n], b[n]);
    }
    assert(a =~= b);
}

/// Writing one pixel changes that pixel alone.
pub proof fn lemma_with_pixel_colors(bytes: Seq<u8>, p: Point, c: Color, i: int)
    requires
        bytes.len() == DISPLAY_BUFFER_SIZE,
        0 <= i < pixel_count(),
    ensures
        with_pixel(bytes, p, c).len() == DISPLAY_BUFFER_SIZE,
        color_at(with_pixel(bytes, p, c), i) == if in_range(p) && i == pixel_index(p) {
            c
        } else {
            color_at(bytes, i)
        },
{
    if in_range(p) {
        let n = pixel_index(p);
        let after = with_pixel(bytes, p, c);
        if i / 8 == n / 8 {
            lemma_bit_of_painted(bytes[n / 8], (n % 8) as u8, (i % 8) as u8, c);
            assert(i == n <==> i % 8 == n % 8);
        } else {
            assert(after[i / 8] == bytes[i / 8]);
        }
    }
}

/// A frame of 0x00 bytes is all black and one of 0xFF bytes all white.
pub proof fn lemma_uniform_colors()
    ensures
        all_pixels(uniform(0u8), Color::Black),
        all_pixels(uniform(255u8), Color::White),
{
    assert forall|i: int| 0 <= i < pixel_count() implies #[trigger] color_at(uniform(0u8), i)
        == Color::Black by {
        lemma_uniform_bits((i % 8) as u8);
    }
    assert forall|i: int| 0 <= i < pixel_count() implies #[trigger] color_at(uniform(255u8), i)
        == Color::White by {
        lemma_uniform_bits((i % 8) as u8);
    }
}

/// A freshly built frame reads black at every addressable point.
pub proof fn lemma_blank_frame_reads_black(p: Point)
    requires
        in_range(p),
    ensures
        pixel_read(uniform(0u8), p) == Ok::<Color, PixelError>(Color::Black),
{
    lemma_uniform_colors();
    assert(color_at(uniform(0u8), pixel_index(p)) == Color::Black);
}

/// After a fill every addressable point reads the fill color, whatever the
/// frame held before.
pub proof fn lemma_filled_frame_reads(p: Point)
    requires
        in_range(p),
    ensures
        pixel_read(uniform(255u8), p) == Ok::<Color, PixelError>(Color::White),
        pixel_read(uniform(0u8), p) == Ok::<Color, PixelError>(Color::Black),
{
    lemma_uniform_colors();
    assert(color_at(uniform(255u8), pixel_index(p)) == Color::White);
    assert(color_at(uniform(0u8), pixel_index(p)) == Color::Black);
}

/// Reading a point right after writing a color there gives that color.
pub proof fn lemma_set_then_get(bytes: Seq<u8>, p: Point, c: Color)
    requires
        bytes.len() == DISPLAY_BUFFER_SIZE,
        in_range(p),
    ensures
        pixel_read(with_pixel(bytes, p, c), p) == Ok::<Color, PixelError>(c),
{
    lemma_with_pixel_colors(bytes, p, c, pixel_index(p));
}

/// Toggling a point twice restores the frame.
pub proof fn lemma_toggle_twice(bytes: Seq<u8>, p: Point)
    requires
        bytes.len() == DISPLAY_BUFFER_SIZE,
    ensures
        toggled(toggled(bytes, p), p) == bytes,
{
    if in_range(p) {
        let c = color_at(bytes, pixel_index(p));
        let once = with_pixel(bytes, p, inverse(c));
        lemma_with_pixel_colors(bytes, p, inverse(c), pixel_index(p));
        let twice = with_pixel(once, p, c);
        assert(toggled(bytes, p) == once);
        assert(toggled(once, p) == twice);
        assert forall|i: int| 0 <= i < pixel_count() implies #[trigger] color_at(twice, i)
            == color_at(bytes, i) by {
            lemma_with_pixel_colors(bytes, p, inverse(c), i);
            lemma_with_pixel_colors(once, p, c, i);
        }
        lemma_pixels_determine_frame(twice, bytes);
    }
}

/// `a` comes no later than `b` when ordered by x, then by y.
pub open spec fn precedes(a: Point, b: Point) -> bool {
    a.x < b.x || (a.x == b.x && a.y <= b.y)
}

/// The endpoint a line is walked from: the earlier of the two.
pub open spec fn line_first(a: Point, b: Point) -> Point {
    if precedes(a, b) {
        a
    } else {
        b
    }
}

/// The endpoint a line is walked to: the later of the two.
pub open spec fn line_last(a: Point, b: Point) -> Point {
    if precedes(a, b) {
        b
    } else {
        a
    }
}

/// Bresenham's walk over a line spanning `dx` columns and `dy` rows, as the
/// offsets (i, j) of its pixels from the first endpoint: `i` steps along x,
/// `j` steps towards the last endpoint's row. `err` is the decision term.
/// A state off the walk's rectangle, or one that would leave it, ends it.
pub open spec fn walk(dx: int, dy: int, i: int, j: int, err: int) -> Seq<(int, int)>
    decreases (dx - i) + (dy - j),
{
    if i < 0 || j < 0 || i > dx || j > dy || (i == dx && j == dy) {
        seq![(i, j)]
    } else {
        let step_x = 2 * err >= -dy;
        let step_y = 2 * err <= dx;
        let ni = if step_x {
            i + 1
        } else {
            i
        };
        let nj = if step_y {
            j + 1
        } else {
            j
        };
        let nerr = err + (if step_x {
            -dy
        } else {
            0
        }) + (if step_y {
            dx
        } else {
            0
        });
        if ni > dx || nj > dy || (ni == i && nj == j) {
            seq![(i, j)]
        } else {
            seq![(i, j)] + walk(dx, dy, ni, nj, nerr)
        }
    }
}

/// The rows a line from `s` to `e` spans.
pub open spec fn row_span(s: Point, e: Point) -> int {
    if s.y < e.y {
        e.y - s.y
    } else {
        s.y - e.y
    }
}

/// The walk of the line from `s` to `e` (with `s` preceding `e`).
pub open spec fn walk_between(s: Point, e: Point) -> Seq<(int, int)> {
    walk(e.x - s.x, row_span(s, e), 0, 0, (e.x - s.x) - row_span(s, e))
}

/// Row-major index of the pixel at offset `o` on the walk from `s` to `e`.
pub open spec fn offset_index(s: Point, e: Point, o: (int, int)) -> int {
    let y = if s.y < e.y {
        s.y + o.1
    } else {
        s.y - o.1
    };
    y * (WIDTH as int) + s.x + o.0
}

/// Some offset of `pts`, taken on the walk from `s` to `e`, lands on pixel `i`.
pub open spec fn offsets_cover(s: Point, e: Point, pts: Seq<(int, int)>, i: int) -> bool {
    exists|k: int| 0 <= k < pts.len() && #[trigger] offset_index(s, e, pts[k]) == i
}

/// The line between `a` and `b` passes over pixel `i`.
pub open spec fn line_covers(a: Point, b: Point, i: int) -> bool {
    let s = line_first(a, b);
    let e = line_last(a, b);
    offsets_cover(s, e, walk_between(s, e), i)
}

/// `after` is `before` with the line between `a` and `b` drawn in `c`.
pub open spec fn line_drawn(before: Seq<u8>, after: Seq<u8>, a: Point, b: Point, c: Color) -> bool {
    &&& after.len() == DISPLAY_BUFFER_SIZE
    &&& forall|i: int|
        0 <= i < pixel_count() ==> #[trigger] color_at(after, i) == if line_covers(a, b, i) {
            c
        } else {
            color_at(before, i)
        }
}

proof fn lemma_walk_done(dx: int, dy: int, err: int)
    requires
        0 <= dx,
        0 <= dy,
    ensures
        walk(dx, dy, dx, dy, err) == seq![(dx, dy)],
{
}

/// One step of the walk from a reachable state: it moves along x, y or both,
/// stays on the line's rectangle, and keeps the decision term in its band.
proof fn lemma_walk_step(dx: int, dy: int, i: int, j: int, err: int)
    requires
        0 <= i <= dx,
        0 <= j <= dy,
        !(i == dx && j == dy),
        err == dx * (j + 1) - dy * (i + 1),
        -2 * dy <= err <= 2 * dx,
    ensures
        ({
            let step_x = 2 * err >= -dy;
            let step_y = 2 * err <= dx;
            let ni = if step_x {
                i + 1
            } else {
                i
            };
            let nj = if step_y {
                j + 1
            } else {
                j
            };
            let nerr = err + (if step_x {
                -dy
            } else {
                0
            }) + (if step_y {
                dx
            } else {
                0
            });
            &&& ni <= dx
            &&& nj <= dy
            &&& (step_x || step_y)
            &&& nerr == dx * (nj + 1) - dy * (ni + 1)
            &&& -2 * dy <= nerr <= 2 * dx
            &&& walk(dx, dy, i, j, err) == seq![(i, j)] + walk(dx, dy, ni, nj, nerr)
        }),
{
    if 2 * err >= -dy && i == dx {
        assert(false) by (nonlinear_arith)
            requires
                i == dx,
                0 <= j < dy,
                0 <= dx,
                err == dx * (j + 1) - dy * (i + 1),
                2 * err >= -dy,
        ;
    }
    if 2 * err <= dx && j == dy {
        assert(false) by (nonlinear_arith)
            requires
                j == dy,
                0 <= i < dx,
                0 <= dy,
                err == dx * (j + 1) - dy * (i + 1),
                2 * err <= dx,
        ;
    }
    assert(dx * (j + 2) == dx * (j + 1) + dx) by (nonlinear_arith);
    assert(dy * (i + 2) == dy * (i + 1) + dy) by (nonlinear_arith);
}

proof fn lemma_cover_push(s: Point, e: Point, pts: Seq<(int, int)>, q: (int, int), i: int)
    ensures
        offsets_cover(s, e, pts.push(q), i) == (offsets_cover(s, e, pts, i) || offset_index(
            s,
            e,
            q,
        ) == i),
{
    let more = pts.push(q);
    if offsets_cover(s, e, pts, i) {
        let k = choose|k: int| 0 <= k < pts.len() && #[trigger] offset_index(s, e, pts[k]) == i;
        assert(more[k] == pts[k]);
    }
    if offset_index(s, e, q) == i {
        assert(more[pts.len() as int] == q);
    }
    if offsets_cover(s, e, more, i) {
        let k = choose|k: int| 0 <= k < more.len() && #[trigger] offset_index(s, e, more[k]) == i;
        if k < pts.len() {
            assert(more[k] == pts[k]);
        }
    }
}

/// `q` is one step of a walk after `p`: one column, one row towards the
/// last endpoint, or both.
pub open spec fn one_step(p: (int, int), q: (int, int)) -> bool {
    &&& 0 <= q.0 - p.0 <= 1
    &&& 0 <= q.1 - p.1 <= 1
    &&& q != p
}

proof fn lemma_walk_shape(dx: int, dy: int, i: int, j: int, err: int)
    requires
        0 <= i <= dx,
        0 <= j <= dy,
        err == dx * (j + 1) - dy * (i + 1),
        -2 * dy <= err <= 2 * dx,
    ensures
        walk(dx, dy, i, j, err).len() >= 1,
        walk(dx, dy, i, j, err)[0] == (i, j),
        walk(dx, dy, i, j, err).last() == (dx, dy),
        forall|k: int|
            0 <= k < walk(dx, dy, i, j, err).len() - 1 ==> #[trigger] one_step(
                walk(dx, dy, i, j, err)[k],
                walk(dx, dy, i, j, err)[k + 1],
            ),
    decreases (dx - i) + (dy - j),
{
    let w = walk(dx, dy, i, j, err);
    if i == dx && j == dy {
        lemma_walk_done(dx, dy, err);
    } else {
        lemma_walk_step(dx, dy, i, j, err);
        let step_x = 2 * err >= -dy;
        let step_y = 2 * err <= dx;
        let ni = if step_x {
            i + 1
        } else {
            i
        };
        let nj = if step_y {
            j + 1
        } else {
            j
        };
        let nerr = err + (if step_x {
            -dy
        } else {
            0
        }) + (if step_y {
            dx
        } else {
            0
        });
        lemma_walk_shape(dx, dy, ni, nj, nerr);
        let rest = walk(dx, dy, ni, nj, nerr);
        assert(w == seq![(i, j)] + rest);
        assert forall|k: int| 0 <= k < w.len() - 1 implies #[trigger] one_step(w[k], w[k + 1]) by {
            if k == 0 {
                assert(w[1] == rest[0]);
            } else {
                assert(w[k] == rest[k - 1]);
                assert(w[k + 1] == rest[k]);
                assert(one_step(rest[k - 1], rest[(k - 1) + 1]));
            }
        }
        assert(w.last() == rest.last());
    }
}

/// The walk of the line between `a` and `b` starts on the endpoint it is
/// walked from, ends on the other, and moves each step to one of the
/// neighbouring pixels: one column on, one row towards the last endpoint,
/// or both.
pub proof fn lemma_line_walk_shape(a: Point, b: Point)
    ensures
        ({
            let s = line_first(a, b);
            let e = line_last(a, b);
            let w = walk_between(s, e);
            &&& w.len() >= 1
            &&& w[0] == (0int, 0int)
            &&& w.last() == (e.x - s.x, row_span(s, e))
            &&& offset_index(s, e, w[0]) == pixel_index(s)
            &&& offset_index(s, e, w.last()) == pixel_index(e)
            &&& forall|k: int| 0 <= k < w.len() - 1 ==> #[trigger] one_step(w[k], w[k + 1])
        }),
{
    let s = line_first(a, b);
    let e = line_last(a, b);
    let dx = e.x - s.x;
    let dy = row_span(s, e);
    assert(dx * (0 + 1) - dy * (0 + 1) == dx - dy) by (nonlinear_arith);
    lemma_walk_shape(dx, dy, 0, 0, dx - dy);
}

/// The line between two points passes over the same pixels in either
/// direction, so drawing it from either end leaves the same frame.
pub proof fn lemma_line_direction_agnostic(
    before: Seq<u8>,
    after_ab: Seq<u8>,
    after_ba: Seq<u8>,
    a: Point,
    b: Point,
    c: Color,
)
    requires
        before.len() == DISPLAY_BUFFER_SIZE,
        line_drawn(before, after_ab, a, b, c),
        line_drawn(before, after_ba, b, a, c),
    ensures
        forall|i: int| 0 <= i < pixel_count() ==> line_covers(a, b, i) == line_covers(b, a, i),
        after_ab == after_ba,
{
    assert(line_first(a, b) == line_first(b, a));
    assert(line_last(a, b) == line_last(b, a));
    assert forall|i: int| 0 <= i < pixel_count() implies #[trigger] color_at(after_ab, i)
        == color_at(after_ba, i) by {
        assert(line_covers(a, b, i) == line_covers(b, a, i));
    }
    lemma_pixels_determine_frame(after_ab, after_ba);
}

/// Lower-left corner of the box spanned by two opposite corners.
pub open spec fn box_low(a: Point, b: Point) -> Point {
    Point {
        x: if a.x <= b.x {
            a.x
        } else {
            b.x
        },
        y: if a.y <= b.y {
            a.y
        } else {
            b.y
        },
    }
}

/// Upper-right corner of the box spanned by two opposite corners.
pub open spec fn box_high(a: Point, b: Point) -> Point {
    Point {
        x: if a.x <= b.x {
            b.x
        } else {
            a.x
        },
        y: if a.y <= b.y {
            b.y
        } else {
            a.y
        },
    }
}

/// Row `y` of the box from `lo` to `hi` has a point on pixel `i`.
pub open spec fn row_hits(lo: Point, hi: Point, y: int, i: int) -> bool {
    lo.x <= i - y * (WIDTH as int) <= hi.x
}

/// Color of the box's point in row `y` that lands on pixel `i`: the border
/// at the left and right edges, the fill between them.
pub open spec fn row_color(lo: Point, hi: Point, y: int, i: int, fill: Color, border: Color) -> Color {
    let x = i - y * (WIDTH as int);
    if x == lo.x || x == hi.x {
        border
    } else {
        fill
    }
}

/// What the rows strictly between `lo.y` and `y` leave on pixel `i`, rows
/// being drawn upwards so that the last one over the pixel wins.
pub open spec fn inner_rows_color(
    lo: Point,
    hi: Point,
    y: int,
    i: int,
    fill: Color,
    border: Color,
) -> Option<Color>
    decreases y - lo.y,
{
    if y <= lo.y + 1 {
        None
    } else if row_hits(lo, hi, y - 1, i) {
        Some(row_color(lo, hi, y - 1, i, fill, border))
    } else {
        inner_rows_color(lo, hi, y - 1, i, fill, border)
    }
}

/// The bottom or top row of the box, drawn from `lo.x` up to but not
/// including `x`, has a point on pixel `i`.
pub open spec fn edge_rows_reach(lo: Point, hi: Point, x: int, i: int) -> bool {
    ||| lo.x <= i - lo.y * (WIDTH as int) < x
    ||| lo.x <= i - hi.y * (WIDTH as int) < x
}

/// Pixel `i` after the bottom and top rows of the box have been drawn.
pub open spec fn edge_rows_color(
    before: Seq<u8>,
    lo: Point,
    hi: Point,
    i: int,
    border: Color,
) -> Color {
    if row_hits(lo, hi, lo.y as int, i) || row_hits(lo, hi, hi.y as int, i) {
        border
    } else {
        color_at(before, i)
    }
}

/// Pixel `i` after the whole box from `lo` to `hi` has been drawn: the bottom
/// and top rows first, then the rows between them from the bottom up, each
/// from its left edge to its right edge.
pub open spec fn box_color(
    before: Seq<u8>,
    lo: Point,
    hi: Point,
    i: int,
    fill: Color,
    border: Color,
) -> Color {
    match inner_rows_color(lo, hi, hi.y as int, i, fill, border) {
        Some(c) => c,
        None => edge_rows_color(before, lo, hi, i, border),
    }
}

/// `after` is `before` with the box spanned by corners `a` and `b` drawn.
pub open spec fn box_drawn(
    before: Seq<u8>,
    after: Seq<u8>,
    a: Point,
    b: Point,
    fill: Color,
    border: Color,
) -> bool {
    &&& after.len() == DISPLAY_BUFFER_SIZE
    &&& forall|i: int|
        0 <= i < pixel_count() ==> #[trigger] color_at(after, i) == box_color(
            before,
            box_low(a, b),
            box_high(a, b),
            i,
            fill,
            border,
        )
}

/// `p` lies on the outline of the box from `lo` to `hi`.
pub open spec fn on_border(lo: Point, hi: Point, p: Point) -> bool {
    &&& lo.x <= p.x <= hi.x
    &&& lo.y <= p.y <= hi.y
    &&& (p.x == lo.x || p.x == hi.x || p.y == lo.y || p.y == hi.y)
}

/// `p` lies strictly inside the box from `lo` to `hi`.
pub open spec fn in_interior(lo: Point, hi: Point, p: Point) -> bool {
    lo.x < p.x < hi.x && lo.y < p.y < hi.y
}

/// Some addressable pixel is both under a point of the outline and under an
/// inner point; only a box wider than the panel can do this.
pub open spec fn border_meets_interior(lo: Point, hi: Point) -> bool {
    exists|p: Point, q: Point|
        #![trigger on_border(lo, hi, p), in_interior(lo, hi, q)]
        on_border(lo, hi, p) && in_interior(lo, hi, q) && in_range(p) && pixel_index(p)
            == pixel_index(q)
}

pub proof fn lemma_inner_rows_witness(lo: Point, hi: Point, y: int, i: int, fill: Color, border: Color) -> (w: int)
    ensures
        match inner_rows_color(lo, hi, y, i, fill, border) {
            None => forall|r: int| lo.y < r < y ==> !#[trigger] row_hits(lo, hi, r, i),
            Some(c) => lo.y < w < y && row_hits(lo, hi, w, i) && c == row_color(
                lo,
                hi,
                w,
                i,
                fill,
                border,
            ) && forall|r: int| w < r < y ==> !#[trigger] row_hits(lo, hi, r, i),
        },
    decreases y - lo.y,
{
    if y <= lo.y + 1 {
        0
    } else if row_hits(lo, hi, y - 1, i) {
        y - 1
    } else {
        lemma_inner_rows_witness(lo, hi, y - 1, i, fill, border)
    }
}

/// Drawing a box gives the same frame for any two opposite corners of the
/// same rectangle, in either order.
pub proof fn lemma_box_corner_order(
    before: Seq<u8>,
    after1: Seq<u8>,
    after2: Seq<u8>,
    a: Point,
    b: Point,
    c: Point,
    d: Point,
    fill: Color,
    border: Color,
)
    requires
        box_drawn(before, after1, a, b, fill, border),
        box_drawn(before, after2, c, d, fill, border),
        box_low(a, b) == box_low(c, d),
        box_high(a, b) == box_high(c, d),
    ensures
        after1 == after2,
{
    assert forall|i: int| 0 <= i < pixel_count() implies #[trigger] color_at(after1, i)
        == color_at(after2, i) by {}
    lemma_pixels_determine_frame(after1, after2);
}

/// After a box is drawn, its addressable outline points show the border color
/// and its addressable inner points the fill color. This holds unless one
/// pixel lies under both kinds of point with different colors asked for.
pub proof fn lemma_box_border_and_fill(
    before: Seq<u8>,
    after: Seq<u8>,
    a: Point,
    b: Point,
    fill: Color,
    border: Color,
    p: Point,
)
    requires
        box_drawn(before, after, a, b, fill, border),
        in_range(p),
        fill == border || !border_meets_interior(box_low(a, b), box_high(a, b)),
    ensures
        on_border(box_low(a, b), box_high(a, b), p) ==> color_at(after, pixel_index(p)) == border,
        in_interior(box_low(a, b), box_high(a, b), p) ==> color_at(after, pixel_index(p)) == fill,
{
    let lo = box_low(a, b);
    let hi = box_high(a, b);
    let i = pixel_index(p);
    assert(color_at(after, i) == box_color(before, lo, hi, i, fill, border));
    assert(row_hits(lo, hi, p.y as int, i) <==> lo.x <= p.x <= hi.x);
    let w = lemma_inner_rows_witness(lo, hi, hi.y as int, i, fill, border);
    match inner_rows_color(lo, hi, hi.y as int, i, fill, border) {
        Some(c) => {
            let x = i - w * (WIDTH as int);
            let q = Point { x: x as isize, y: w as isize };
            assert(pixel_index(q) == i);
            if on_border(lo, hi, p) && c != border {
                assert(in_interior(lo, hi, q));
                assert(border_meets_interior(lo, hi));
            }
            if in_interior(lo, hi, p) && c != fill {
                assert(on_border(lo, hi, q));
                assert(w >= p.y);
                if w == p.y {
                    assert(x == p.x);
                }
                assert(border_meets_interior(lo, hi));
            }
        },
        None => {
            if in_interior(lo, hi, p) {
                assert(row_hits(lo, hi, p.y as int, i));
            }
            if on_border(lo, hi, p) && lo.y < p.y < hi.y {
                assert(row_hits(lo, hi, p.y as int, i));
            }
        },
    }
}

/// A picture of `width` by `height` pixels, packed like a frame.
pub struct Pixmap {
    pub data: Vec<u8>,
    pub width: usize,
    pub height: usize,
}

/// One pixmap per character code.
pub struct AsciiFont {
    pub characters: Vec<Pixmap>,
}

/// Text to be set in a font from a bottom-left corner.
pub struct AsciiText {
    pub text: String,
    pub font: AsciiFont,
    pub bottom_left: Point,
    pub spacing: isize,
    pub invert: bool,
}

/// Window pixel value for a white pixel.
pub const WINDOW_WHITE: u32 = 0xFFFFFFFF;

/// Window pixel value for a black pixel.
pub const WINDOW_BLACK: u32 = 0x00000000;

/// Position in the frame of window pixel `i`: windows count rows from the
/// top, the panel from the bottom.
pub open spec fn window_point(i: int) -> Point {
    Point { x: (i % 32) as isize, y: (127 - i / 32) as isize }
}

/// Where a display is in being brought up and down.
#[derive(PartialEq, Eq, Structural, Clone, Copy, Debug)]
pub enum DriverState {
    Uninitialized,
    Resetting,
    Configuring,
    Active,
    Deinitialized,
}

/// What a render loop needs of a display: bring it up, present the frame,
/// power it down, and reach the frame to draw on. Presenting is for an
/// active display only, and nothing is for one that has been powered down.
pub trait DisplayControl {
    /// Where the display is in being brought up and down.
    spec fn state(&self) -> DriverState;

    /// Brings the display up and shows the current frame; the display is
    /// active once this succeeds.
    fn init(&mut self) -> (r: Result<(), TransportFailure>)
        requires
            old(self).state() != DriverState::Deinitialized,
        ensures
            r is Ok ==> final(self).state() == DriverState::Active,
    ;

    /// Blanks the display and powers it down; it is deinitialized once this
    /// succeeds.
    fn deinit(&mut self) -> (r: Result<(), TransportFailure>)
        requires
            old(self).state() == DriverState::Active,
        ensures
            r is Ok ==> final(self).state() == DriverState::Deinitialized,
    ;

    /// Shows the current frame.
    fn swap(&mut self) -> (r: Result<(), TransportFailure>)
        requires
            old(self).state() == DriverState::Active,
        ensures
            final(self).state() == old(self).state(),
    ;

    /// The frame to draw on.
    fn fb(&mut self) -> (r: &mut DisplayBuffer)
        requires
            old(self).state() != DriverState::Deinitialized,
        ensures
            final(self).state() == old(self).state(),
    ;
}

/// The packed frame: bit `x mod 8` of byte `y * 4 + x / 8` is the pixel at
/// (x, y), set for white.
pub struct DisplayBuffer {
    pub buffer: [u8; DISPLAY_BUFFER_SIZE],
}

/// Byte and bit of an addressable point.
fn locate(point: &Point) -> (r: Option<(usize, u8)>)
    ensures
        r == if in_range(*point) {
            Some(((pixel_index(*point) / 8) as usize, (pixel_index(*point) % 8) as u8))
        } else {
            None::<(usize, u8)>
        },
{
    let index: i128 = point.y as i128 * 32 + point.x as i128;
    if 0 <= index && index < 4096 {
        Some(((index / 8) as usize, (index % 8) as u8))
    } else {
        None
    }
}

impl DisplayBuffer {
    /// A frame with every pixel black.
    pub fn new() -> (r: DisplayBuffer)
        ensures
            r.buffer@ == uniform(0u8),
            all_pixels(r.buffer@, Color::Black),
    {
        let r = DisplayBuffer { buffer: [0u8; DISPLAY_BUFFER_SIZE] };
        proof {
            assert(r.buffer@ =~= uniform(0u8));
            lemma_uniform_colors();
        }
        r
    }

    /// Sets every byte to 0x00.
    pub fn fill_with_black(&mut self)
        ensures
            final(self).buffer@ == uniform(0u8),
            all_pixels(final(self).buffer@, Color::Black),
    {
        self.buffer = [0u8; DISPLAY_BUFFER_SIZE];
        proof {
            assert(self.buffer@ =~= uniform(0u8));
            lemma_uniform_colors();
        }
    }

    /// Sets every byte to 0xFF.
    pub fn fill_with_white(&mut self)
        ensures
            final(self).buffer@ == uniform(255u8),
            all_pixels(final(self).buffer@, Color::White),
    {
        self.buffer = [255u8; DISPLAY_BUFFER_SIZE];
        proof {
            assert(self.buffer@ =~= uniform(255u8));
            lemma_uniform_colors();
        }
    }

    /// The color at `point`, or `OutOfRange` when its byte is outside the frame.
    pub fn get_pixel_color(&self, point: &Point) -> (r: Result<Color, PixelError>)
        ensures
            r == pixel_read(self.buffer@, *point),
    {
        match locate(point) {
            Some((byte, bit)) => {
                proof {
                    lemma_mask_test(self.buffer@[byte as int], bit);
                }
                if self.buffer[byte] & (1u8 << bit) > 0 {
                    Ok(Color::White)
                } else {
                    Ok(Color::Black)
                }
            },
            None => Err(PixelError::OutOfRange),
        }
    }

    /// Writes `color` at `point`; does nothing when its byte is outside the frame.
    pub fn set_pixel_color(&mut self, point: &Point, color: &Color)
        ensures
            final(self).buffer@ == with_pixel(old(self).buffer@, *point, *color),
    {
        match locate(point) {
            Some((byte, bit)) => {
                let mask: u8 = 1u8 << bit;
                let current = self.buffer[byte];
                let painted = match color {
                    Color::White => current | mask,
                    Color::Black => current & !mask,
                };
                self.buffer[byte] = painted;
                proof {
                    assert(self.buffer@ =~= with_pixel(old(self).buffer@, *point, *color));
                }
            },
            None => {},
        }
    }

    /// Flips the pixel at `point`. When its byte is outside the frame the
    /// frame stays as it is and the failed read is reported.
    pub fn toggle_pixel(&mut self, point: &Point) -> (r: Result<(), PixelError>)
        ensures
            final(self).buffer@ == toggled(old(self).buffer@, *point),
            r == (match pixel_read(old(self).buffer@, *point) {
                Ok(_) => Ok::<(), PixelError>(()),
                Err(e) => Err(e),
            }),
    {
        match self.get_pixel_color(point) {
            Ok(Color::White) => {
                self.set_pixel_color(point, &Color::Black);
                Ok(())
            },
            Ok(Color::Black) => {
                self.set_pixel_color(point, &Color::White);
                Ok(())
            },
            Err(e) => Err(e),
        }
    }

    /// Draws the line between two points with Bresenham's algorithm, walking
    /// from the endpoint that comes first by x, then y, so that either order
    /// of the endpoints gives the same pixels. Both endpoints are drawn.
    pub fn draw_line_with_points(&mut self, start: &Point, end: &Point, color: &Color)
        ensures
            line_drawn(old(self).buffer@, final(self).buffer@, *start, *end, *color),
    {
        let ghost before = self.buffer@;
        let (s, e) = if start.x < end.x || (start.x == end.x && start.y <= end.y) {
            (*start, *end)
        } else {
            (*end, *start)
        };
        proof {
            assert(s == line_first(*start, *end) && e == line_last(*start, *end));
        }
        let dx: i128 = e.x as i128 - s.x as i128;
        let dy: i128 = if s.y < e.y {
            e.y as i128 - s.y as i128
        } else {
            s.y as i128 - e.y as i128
        };
        let mut err: i128 = dx - dy;
        let mut current = s;
        let ghost mut i: int = 0;
        let ghost mut j: int = 0;
        let ghost mut visited: Seq<(int, int)> = Seq::empty();
        proof {
            assert(dx * (0 + 1) - dy * (0 + 1) == dx - dy) by (nonlinear_arith);
            assert(visited + walk_between(s, e) =~= walk_between(s, e));
        }
        loop
            invariant_except_break
                walk_between(s, e) == visited + walk(dx as int, dy as int, i, j, err as int),
            invariant
                s == line_first(*start, *end),
                e == line_last(*start, *end),
                dx == e.x - s.x,
                dy == row_span(s, e),
                0 <= i <= dx,
                0 <= j <= dy,
                current.x == s.x + i,
                current.y == if s.y < e.y {
                    s.y + j
                } else {
                    s.y - j
                },
                err == dx * (j + 1) - dy * (i + 1),
                -2 * dy <= err <= 2 * dx,
                self.buffer@.len() == DISPLAY_BUFFER_SIZE,
                forall|n: int|
                    0 <= n < pixel_count() ==> #[trigger] color_at(self.buffer@, n) == if offsets_cover(
                        s,
                        e,
                        visited,
                        n,
                    ) {
                        *color
                    } else {
                        color_at(before, n)
                    },
            ensures
                line_drawn(before, self.buffer@, *start, *end, *color),
            decreases (dx - i) + (dy - j),
        {
            let ghost prior = self.buffer@;
            self.set_pixel_color(&current, color);
            proof {
                let q = (i, j);
                assert(offset_index(s, e, q) == pixel_index(current));
                assert forall|n: int| 0 <= n < pixel_count() implies #[trigger] color_at(
                    self.buffer@,
                    n,
                ) == if offsets_cover(s, e, visited.push(q), n) {
                    *color
                } else {
                    color_at(before, n)
                } by {
                    lemma_with_pixel_colors(prior, current, *color, n);
                    lemma_cover_push(s, e, visited, q, n);
                }
                visited = visited.push(q);
            }
            if current.x == e.x && current.y == e.y {
                proof {
                    lemma_walk_done(dx as int, dy as int, err as int);
                    assert(walk_between(s, e) =~= visited);
                }
                break;
            }
            proof {
                lemma_walk_step(dx as int, dy as int, i, j, err as int);
                assert(visited.drop_last() + walk(dx as int, dy as int, i, j, err as int)
                    =~= visited + walk(
                    dx as int,
                    dy as int,
                    if 2 * err >= -dy {
                        i + 1
                    } else {
                        i
                    },
                    if 2 * err <= dx {
                        j + 1
                    } else {
                        j
                    },
                    err + (if 2 * err >= -dy {
                        -dy
                    } else {
                        0
                    }) + (if 2 * err <= dx {
                        dx
                    } else {
                        0
                    }),
                ));
            }
            let e2: i128 = 2 * err;
            if e2 >= -dy {
                err = err - dy;
                current.x = current.x + 1;
                proof {
                    i = i + 1;
                }
            }
            if e2 <= dx {
                err = err + dx;
                if s.y < e.y {
                    current.y = current.y + 1;
                } else {
                    current.y = current.y - 1;
                }
                proof {
                    j = j + 1;
                }
            }
        }
    }

    /// Draws the line from (x0, y0) to (x1, y1).
    pub fn draw_line_with_coords(
        &mut self,
        x0: isize,
        y0: isize,
        x1: isize,
        y1: isize,
        color: &Color,
    )
        ensures
            line_drawn(
                old(self).buffer@,
                final(self).buffer@,
                Point { x: x0, y: y0 },
                Point { x: x1, y: y1 },
                *color,
            ),
    {
        self.draw_line_with_points(&Point { x: x0, y: y0 }, &Point { x: x1, y: y1 }, color);
    }
    /// Draws the box spanned by two opposite corners, in any order: a
    /// one-pixel outline in `border_color` and the inside in `fill_color`.
    /// The bottom and top rows go first, then each row between them from the
    /// bottom up, left edge, right edge, then the inside from left to right.
    pub fn draw_box_with_points(
        &mut self,
        bottom_left: &Point,
        top_right: &Point,
        fill_color: &Color,
        border_color: &Color,
    )
        ensures
            box_drawn(
                old(self).buffer@,
                final(self).buffer@,
                *bottom_left,
                *top_right,
                *fill_color,
                *border_color,
            ),
    {
        let ghost before = self.buffer@;
        let lo = Point {
            x: if bottom_left.x <= top_right.x {
                bottom_left.x
            } else {
                top_right.x
            },
            y: if bottom_left.y <= top_right.y {
                bottom_left.y
            } else {
                top_right.y
            },
        };
        let hi = Point {
            x: if bottom_left.x <= top_right.x {
                top_right.x
            } else {
                bottom_left.x
            },
            y: if bottom_left.y <= top_right.y {
                top_right.y
            } else {
                bottom_left.y
            },
        };
        proof {
            assert(lo == box_low(*bottom_left, *top_right));
            assert(hi == box_high(*bottom_left, *top_right));
        }
        let mut x = lo.x;
        loop
            invariant_except_break
                forall|n: int|
                    0 <= n < pixel_count() ==> #[trigger] color_at(self.buffer@, n) == if edge_rows_reach(lo, hi, x as int, n) {
                        *border_color
                    } else {
                        color_at(before, n)
                    },
            invariant
                lo.x <= x <= hi.x,
                lo.y <= hi.y,
                self.buffer@.len() == DISPLAY_BUFFER_SIZE,
            ensures
                self.buffer@.len() == DISPLAY_BUFFER_SIZE,
                forall|n: int|
                    0 <= n < pixel_count() ==> #[trigger] color_at(self.buffer@, n)
                        == edge_rows_color(before, lo, hi, n, *border_color),
            decreases hi.x - x,
        {
            let ghost prior = self.buffer@;
            let bottom = Point { x: x, y: lo.y };
            let top = Point { x: x, y: hi.y };
            self.set_pixel_color(&bottom, border_color);
            let ghost middle = self.buffer@;
            self.set_pixel_color(&top, border_color);
            proof {
                assert forall|n: int| 0 <= n < pixel_count() implies #[trigger] color_at(
                    self.buffer@,
                    n,
                ) == if edge_rows_reach(lo, hi, x + 1, n) {
                    *border_color
                } else {
                    color_at(before, n)
                } by {
                    lemma_with_pixel_colors(prior, bottom, *border_color, n);
                    lemma_with_pixel_colors(middle, top, *border_color, n);
                }
            }
            if x == hi.x {
                break;
            }
            x = x + 1;
        }
        if lo.y < hi.y {
            let mut y = lo.y + 1;
            while y < hi.y
                invariant
                    lo.x <= hi.x,
                    lo.y < y <= hi.y,
                    self.buffer@.len() == DISPLAY_BUFFER_SIZE,
                    forall|n: int|
                        0 <= n < pixel_count() ==> #[trigger] color_at(self.buffer@, n) == match inner_rows_color(
                            lo,
                            hi,
                            y as int,
                            n,
                            *fill_color,
                            *border_color,
                        ) {
                            Some(c) => c,
                            None => edge_rows_color(before, lo, hi, n, *border_color),
                        },
                decreases hi.y - y,
            {
                let ghost row_start = self.buffer@;
                let left = Point { x: lo.x, y: y };
                let right = Point { x: hi.x, y: y };
                self.set_pixel_color(&left, border_color);
                let ghost middle = self.buffer@;
                self.set_pixel_color(&right, border_color);
                proof {
                    assert forall|n: int| 0 <= n < pixel_count() implies #[trigger] color_at(
                        self.buffer@,
                        n,
                    ) == if n - y * (WIDTH as int) == lo.x || n - y * (WIDTH as int) == hi.x {
                        *border_color
                    } else {
                        color_at(row_start, n)
                    } by {
                        lemma_with_pixel_colors(row_start, left, *border_color, n);
                        lemma_with_pixel_colors(middle, right, *border_color, n);
                    }
                }
                if lo.x < hi.x {
                    let mut x = lo.x + 1;
                    while x < hi.x
                        invariant
                            lo.x < x <= hi.x,
                            lo.y < y < hi.y,
                            self.buffer@.len() == DISPLAY_BUFFER_SIZE,
                            forall|n: int|
                                0 <= n < pixel_count() ==> #[trigger] color_at(self.buffer@, n)
                                    == if n - y * (WIDTH as int) == lo.x || n - y * (WIDTH as int)
                                    == hi.x {
                                    *border_color
                                } else if lo.x < n - y * (WIDTH as int) < x {
                                    *fill_color
                                } else {
                                    color_at(row_start, n)
                                },
                        decreases hi.x - x,
                    {
                        let ghost prior = self.buffer@;
                        let inside = Point { x: x, y: y };
                        self.set_pixel_color(&inside, fill_color);
                        proof {
                            assert forall|n: int| 0 <= n < pixel_count() implies #[trigger] color_at(
                                self.buffer@,
                                n,
                            ) == if n - y * (WIDTH as int) == lo.x || n - y * (WIDTH as int) == hi.x {
                                *border_color
                            } else if lo.x < n - y * (WIDTH as int) < x + 1 {
                                *fill_color
                            } else {
                                color_at(row_start, n)
                            } by {
                                lemma_with_pixel_colors(prior, inside, *fill_color, n);
                            }
                        }
                        x = x + 1;
                    }
                }
                proof {
                    assert forall|n: int| 0 <= n < pixel_count() implies #[trigger] color_at(
                        self.buffer@,
                        n,
                    ) == match inner_rows_color(
                        lo,
                        hi,
                        y + 1,
                        n,
                        *fill_color,
                        *border_color,
                    ) {
                        Some(c) => c,
                        None => edge_rows_color(before, lo, hi, n, *border_color),
                    } by {
                        assert(color_at(row_start, n) == match inner_rows_color(
                            lo,
                            hi,
                            y as int,
                            n,
                            *fill_color,
                            *border_color,
                        ) {
                            Some(c) => c,
                            None => edge_rows_color(before, lo, hi, n, *border_color),
                        });
                    }
                }
                y = y + 1;
            }
        }
    }

    /// Draws the box spanned by (x0, y0) and (x1, y1), in any order.
    pub fn draw_box_with_coords(
        &mut self,
        x0: isize,
        y0: isize,
        x1: isize,
        y1: isize,
        fill_color: &Color,
        border_color: &Color,
    )
        ensures
            box_drawn(
                old(self).buffer@,
                final(self).buffer@,
                Point { x: x0, y: y0 },
                Point { x: x1, y: y1 },
                *fill_color,
                *border_color,
            ),
    {
        let lo = Point {
            x: if x0 <= x1 {
                x0
            } else {
                x1
            },
            y: if y0 <= y1 {
                y0
            } else {
                y1
            },
        };
        let hi = Point {
            x: if x0 <= x1 {
                x1
            } else {
                x0
            },
            y: if y0 <= y1 {
                y1
            } else {
                y0
            },
        };
        self.draw_box_with_points(&lo, &hi, fill_color, border_color);
        proof {
            assert(box_low(lo, hi) == box_low(Point { x: x0, y: y0 }, Point { x: x1, y: y1 }));
            assert(box_high(lo, hi) == box_high(Point { x: x0, y: y0 }, Point { x: x1, y: y1 }));
        }
    }
    /// Pixmaps are not rendered: the frame stays as it is.
    pub fn fill_with_pixmap(&mut self, pixmap: &Pixmap)
        ensures
            final(self).buffer@ == old(self).buffer@,
    {
    }

    /// Text is not rendered: the frame stays as it is.
    pub fn write_ascii_text(&mut self, text: AsciiText)
        ensures
            final(self).buffer@ == old(self).buffer@,
    {
    }

    /// The frame as window pixels, row by row from the top of the panel.
    pub fn window_pixels(&self) -> (r: Vec<u32>)
        ensures
            r@.len() == pixel_count(),
            forall|i: int|
                0 <= i < pixel_count() ==> #[trigger] r@[i] == if color_at(
                    self.buffer@,
                    pixel_index(window_point(i)),
                ) == Color::White {
                    WINDOW_WHITE
                } else {
                    WINDOW_BLACK
                },
    {
        let mut r: Vec<u32> = Vec::new();
        let mut i: usize = 0;
        while i < 4096
            invariant
                i <= 4096,
                r@.len() == i,
                forall|k: int|
                    0 <= k < i ==> #[trigger] r@[k] == if color_at(
                        self.buffer@,
                        pixel_index(window_point(k)),
                    ) == Color::White {
                        WINDOW_WHITE
                    } else {
                        WINDOW_BLACK
                    },
            decreases 4096 - i,
        {
            let point = Point { x: (i % 32) as isize, y: 127 - (i / 32) as isize };
            proof {
                assert(point == window_point(i as int));
                assert(in_range(point));
            }
            let value = match self.get_pixel_color(&point) {
                Ok(Color::White) => WINDOW_WHITE,
                _ => WINDOW_BLACK,
            };
            r.push(value);
            i = i + 1;
        }
        r
    }
}

} // verus!
