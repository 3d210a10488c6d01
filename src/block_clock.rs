use vstd::prelude::*;
use crate::display::{
    DisplayBuffer, Color, Point, color_at, pixel_count, box_color, row_hits, inner_rows_color,
    box_low, box_high, row_color, WIDTH,
};

verus! {

/// Blocks drawn for `remaining_seconds`: one per started minute.
pub open spec fn clock_minutes(remaining_seconds: int) -> int {
    1 + remaining_seconds / 60
}

/// Left column of block `m`; four blocks to a row, filled from the right.
pub open spec fn block_left(m: int) -> int {
    25 - 8 * (m % 4)
}

/// Right column of block `m`.
pub open spec fn block_right(m: int) -> int {
    31 - 8 * (m % 4)
}

/// Bottom row of block `m`; rows of blocks are eight pixels apart.
pub open spec fn block_bottom(m: int) -> int {
    1 + 8 * (m / 4)
}

/// Top row of block `m`: full blocks are seven rows high; the last block
/// grows with the seconds of the current minute and blinks off one row on
/// even seconds.
pub open spec fn block_top(remaining_seconds: int, m: int) -> int {
    let seconds = remaining_seconds % 60;
    if m == clock_minutes(remaining_seconds) - 1 {
        block_bottom(m) + (7 * seconds) / 60 - (if seconds % 2 == 1 {
            0int
        } else {
            1int
        })
    } else {
        block_bottom(m) + 6
    }
}

/// Row `y` of block `m` has a point on pixel `i`.
pub open spec fn block_row_hits(m: int, y: int, i: int) -> bool {
    block_left(m) <= i - y * (WIDTH as int) <= block_right(m)
}

/// Block `m` is drawn and has a point on pixel `i`.
pub open spec fn block_covers(remaining_seconds: int, m: int, i: int) -> bool {
    &&& block_top(remaining_seconds, m) >= block_bottom(m)
    &&& exists|y: int|
        block_bottom(m) <= y <= block_top(remaining_seconds, m) && #[trigger] block_row_hits(m, y, i)
}

/// Some block among the first `count` covers pixel `i`.
pub open spec fn blocks_cover(remaining_seconds: int, count: int, i: int) -> bool {
    exists|m: int| 0 <= m < count && #[trigger] block_covers(remaining_seconds, m, i)
}

/// A box drawn in one color is that color exactly over its points.
proof fn lemma_solid_box(before: Seq<u8>, lo: Point, hi: Point, i: int, c: Color)
    requires
        lo.y <= hi.y,
    ensures
        box_color(before, lo, hi, i, c, c) == if exists|y: int|
            lo.y <= y <= hi.y && #[trigger] row_hits(lo, hi, y, i) {
            c
        } else {
            color_at(before, i)
        },
{
    let w = crate::display::lemma_inner_rows_witness(lo, hi, hi.y as int, i, c, c);
    match inner_rows_color(lo, hi, hi.y as int, i, c, c) {
        Some(k) => {
            assert(row_hits(lo, hi, w, i));
            assert(k == row_color(lo, hi, w, i, c, c));
        },
        None => {
            if exists|y: int| lo.y <= y <= hi.y && #[trigger] row_hits(lo, hi, y, i) {
                let y = choose|y: int| lo.y <= y <= hi.y && #[trigger] row_hits(lo, hi, y, i);
                assert(y == lo.y || y == hi.y);
            }
        },
    }
}

/// Draws one block per started minute of `remaining_seconds`, white on the
/// frame, four to a row from the top right; the last block shows the seconds.
pub fn draw_block_clock(remaining_seconds: u128, frame_buffer: &mut DisplayBuffer)
    ensures
        forall|i: int|
            0 <= i < pixel_count() ==> #[trigger] color_at(final(frame_buffer).buffer@, i) == if blocks_cover(
                remaining_seconds as int,
                clock_minutes(remaining_seconds as int),
                i,
            ) {
                Color::White
            } else {
                color_at(old(frame_buffer).buffer@, i)
            },
{
    let ghost before = frame_buffer.buffer@;
    let ghost rs = remaining_seconds as int;
    let minutes: u128 = 1 + remaining_seconds / 60;
    let seconds: isize = (remaining_seconds % 60) as isize;
    let rect_size: isize = 6;
    let rect_x_positions: [isize; 4] = [30, 22, 14, 6];
    let x_offset: isize = 1;
    // Rows from the seventeenth on lie below the frame.
    let drawn: isize = if minutes < 64 {
        minutes as isize
    } else {
        64
    };
    let mut minute: isize = 0;
    while minute < drawn
        invariant
            0 <= minute <= drawn <= 64,
            drawn == (if minutes < 64 {
                minutes as int
            } else {
                64
            }),
            minutes == clock_minutes(rs),
            seconds == rs % 60,
            0 <= seconds < 60,
            rs == remaining_seconds,
            rect_size == 6,
            x_offset == 1,
            rect_x_positions@ == seq![30isize, 22, 14, 6],
            frame_buffer.buffer@.len() == crate::display::DISPLAY_BUFFER_SIZE,
            forall|i: int|
                0 <= i < pixel_count() ==> #[trigger] color_at(frame_buffer.buffer@, i) == if blocks_cover(
                    rs,
                    minute as int,
                    i,
                ) {
                    Color::White
                } else {
                    color_at(before, i)
                },
        decreases drawn - minute,
    {
        let row = minute / 4;
        let x0 = rect_x_positions[(minute % 4) as usize] + x_offset;
        let y0 = 1 + row * rect_size + row * 2;
        let x1 = x0 - rect_size;
        let y1 = if minute as u128 == minutes - 1 {
            proof {
                assert(0 <= 7 * seconds <= 413);
            }
            let segments_filled = (1 + rect_size) * seconds / 60;
            let blinking_subtractor: isize = if seconds % 2 == 1 {
                0
            } else {
                1
            };
            y0 + segments_filled - blinking_subtractor
        } else {
            y0 + rect_size
        };
        proof {
            let m = minute as int;
            assert(x0 == block_right(m) && x1 == block_left(m)) by {
                assert(rect_x_positions@[m % 4] == 30 - 8 * (m % 4));
            }
            assert(y0 == block_bottom(m));
            assert(y1 == block_top(rs, m));
        }
        let ghost prior = frame_buffer.buffer@;
        if y1 >= y0 {
            frame_buffer.draw_box_with_coords(x0, y0, x1, y1, &Color::White, &Color::White);
            proof {
                let m = minute as int;
                let a = Point { x: x0, y: y0 };
                let b = Point { x: x1, y: y1 };
                let lo = box_low(a, b);
                let hi = box_high(a, b);
                assert forall|i: int| 0 <= i < pixel_count() implies #[trigger] color_at(
                    frame_buffer.buffer@,
                    i,
                ) == if blocks_cover(rs, m + 1, i) {
                    Color::White
                } else {
                    color_at(before, i)
                } by {
                    lemma_solid_box(prior, lo, hi, i, Color::White);
                    if block_covers(rs, m, i) {
                        let y = choose|y: int|
                            block_bottom(m) <= y <= block_top(rs, m) && #[trigger] block_row_hits(m, y, i);
                        assert(row_hits(lo, hi, y, i));
                    }
                    if exists|y: int| lo.y <= y <= hi.y && #[trigger] row_hits(lo, hi, y, i) {
                        let y = choose|y: int| lo.y <= y <= hi.y && #[trigger] row_hits(lo, hi, y, i);
                        assert(block_bottom(m) <= y <= block_top(rs, m) && block_row_hits(m, y, i));
                    }
                    lemma_cover_extend(rs, m, i);
                }
            }
        } else {
            proof {
                let m = minute as int;
                assert forall|i: int| 0 <= i < pixel_count() implies #[trigger] color_at(
                    frame_buffer.buffer@,
                    i,
                ) == if blocks_cover(rs, m + 1, i) {
                    Color::White
                } else {
                    color_at(before, i)
                } by {
                    lemma_cover_extend(rs, m, i);
                }
            }
        }
        minute = minute + 1;
    }
    proof {
        assert forall|i: int| 0 <= i < pixel_count() implies blocks_cover(rs, drawn as int, i)
            == blocks_cover(rs, clock_minutes(rs), i) by {
            if blocks_cover(rs, clock_minutes(rs), i) {
                let m = choose|m: int| 0 <= m < clock_minutes(rs) && #[trigger] block_covers(rs, m, i);
                if m >= 64 {
                    let y = choose|y: int|
                        block_bottom(m) <= y <= block_top(rs, m) && #[trigger] block_row_hits(m, y, i);
                    assert(block_bottom(m) >= 129);
                    assert(false);
                }
            }
        }
    }
}

proof fn lemma_cover_extend(rs: int, m: int, i: int)
    requires
        0 <= m,
    ensures
        blocks_cover(rs, m + 1, i) == (blocks_cover(rs, m, i) || block_covers(rs, m, i)),
{
    if blocks_cover(rs, m + 1, i) && !block_covers(rs, m, i) {
        let k = choose|k: int| 0 <= k < m + 1 && #[trigger] block_covers(rs, k, i);
        assert(k < m);
    }
}

} // verus!
