//! The touch controller: raw readings become points on the touch panel.
//!
//! The panel lies across the screen: its x axis runs along the long side, its y
//! axis along the short one.

use crate::bytes::read_be16;
use vstd::prelude::*;

verus! {

/// The command that asks for the reading along the x axis.
pub const READ_X: u8 = 0x90;

/// The command that asks for the reading along the y axis.
pub const READ_Y: u8 = 0xd0;

/// How raw readings lie on the panel: `x1` and `x2` are the readings at the first
/// and the last edge of the x axis, `y1` and `y2` those of the y axis, and `sx` and
/// `sy` are the lengths of the axes in pixels.
struct Calibration {
    pub x1: i32,
    pub x2: i32,
    pub y1: i32,
    pub y2: i32,
    pub sx: i32,
    pub sy: i32,
}

/// The raw reading in the two bytes that the controller sends: the upper thirteen
/// bits.
pub open spec fn raw_reading(b: Seq<u8>) -> int {
    (256 * b[0] + b[1]) / 8
}

pub open spec fn clamped(v: int, top: int) -> int {
    if v < 0 {
        0
    } else if v > top {
        top
    } else {
        v
    }
}

/// Where `raw` lies on an axis of `span` pixels whose first edge reads `from` and
/// whose last edge reads `to`, rounded down; a reading beyond an edge lies on it.
spec fn on_axis(raw: int, from: int, to: int, span: int) -> int {
    clamped(
        if from < to {
            (raw - from) * span / (to - from)
        } else {
            (from - raw) * span / (from - to)
        },
        span,
    )
}

/// How quotients change with the signs of their parts.
proof fn quotient_signs(n: int, d: int)
    requires
        n >= 0,
        d != 0,
    ensures
        d > 0 ==> n / d >= 0 && (-n) / d <= 0,
        d < 0 ==> n / d == -(n / (-d)) && n / (-d) >= 0 && (-n) / (-d) <= 0,
{
    if d > 0 {
        assert(n / d >= 0 && (-n) / d <= 0) by (nonlinear_arith)
            requires
                n >= 0,
                d > 0,
        ;
    } else {
        let e = -d;
        assert(n / e >= 0 && (-n) / e <= 0) by (nonlinear_arith)
            requires
                n >= 0,
                e > 0,
        ;
        assert(n / d == -(n / e)) by (nonlinear_arith)
            requires
                n >= 0,
                e > 0,
                d == -e,
        ;
    }
}

fn axis(raw: i32, from: i32, to: i32, span: i32) -> (pixel: i32)
    requires
        0 <= raw <= 8191,
        0 <= from <= 8191,
        0 <= to <= 8191,
        from != to,
        0 <= span <= 1000,
    ensures
        pixel == on_axis(raw as int, from as int, to as int, span as int),
{
    assert(-8191 * 1000 <= (raw - from) * span <= 8191 * 1000) by (nonlinear_arith)
        requires
            -8191 <= raw - from <= 8191,
            0 <= span <= 1000,
    ;
    let v: i32 = (raw - from) * span / (to - from);
    proof {
        let n = (raw - from) * span;
        let d = to - from;
        assert((from - raw) * span == -n) by (nonlinear_arith)
            requires
                n == (raw - from) * span,
        ;
        if n >= 0 {
            quotient_signs(n, d);
        } else {
            quotient_signs(-n, d);
        }
    }
    if v < 0 {
        0
    } else if v > span {
        span
    } else {
        v
    }
}

/// The column, in pixels, of a raw reading along the x axis: 3880 is read at its
/// first edge and 340 at its last one.
pub open spec fn pixel_x(raw: int) -> int {
    clamped((3880 - raw) * 320 / 3540, 320)
}

/// The row, in pixels, of a raw reading along the y axis: 262 is read at its first
/// edge and 3850 at its last one.
pub open spec fn pixel_y(raw: int) -> int {
    clamped((raw - 262) * 240 / 3588, 240)
}

/// The point that two readings give while the panel is touched. Where both lie on
/// the first edges there is none.
pub open spec fn point_of(x: Seq<u8>, y: Seq<u8>) -> Option<(int, int)> {
    let column = pixel_x(raw_reading(x));
    let row = pixel_y(raw_reading(y));
    if column == 0 && row == 0 {
        None
    } else {
        Some((column, row))
    }
}

/// The calibration of the device.
fn calibration() -> (c: Calibration)
    ensures
        c == (Calibration { x1: 3880, x2: 340, y1: 262, y2: 3850, sx: 320, sy: 240 }),
{
    Calibration { x1: 3880, x2: 340, y1: 262, y2: 3850, sx: 320, sy: 240 }
}

/// Turns the answers of the controller into a point on the panel, in pixels.
/// `touched` says whether its interrupt pin reports a touch, and `x` and `y` are the
/// two bytes that it sends for each axis.
pub fn touch_point(touched: bool, x: [u8; 2], y: [u8; 2]) -> (point: Option<(i32, i32)>)
    ensures
        !touched ==> point is None,
        touched ==> (point is Some <==> point_of(x@, y@) is Some),
        touched ==> (point is None <==> 320 * (3880 - (256 * x@[0] + x@[1]) / 8) < 3540 && 240 * ((
        256 * y@[0] + y@[1]) / 8 - 262) < 3588),
        point is Some ==> (point->Some_0.0 as int, point->Some_0.1 as int) == point_of(
            x@,
            y@,
        )->Some_0,
{
    if !touched {
        return None;
    }
    let c = calibration();
    let raw_x = raw(x[0], x[1]);
    let raw_y = raw(y[0], y[1]);
    let column = axis(raw_x, c.x1, c.x2, c.sx);
    let row = axis(raw_y, c.y1, c.y2, c.sy);
    proof {
        device_axes(raw_x as int);
        device_axes(raw_y as int);
    }
    if column == 0 && row == 0 {
        None
    } else {
        Some((column, row))
    }
}

/// The axes of the device.
proof fn device_axes(raw: int)
    ensures
        on_axis(raw, 3880, 340, 320) == pixel_x(raw),
        on_axis(raw, 262, 3850, 240) == pixel_y(raw),
{
    let span_x = 320int;
    let span_y = 240int;
    assert((3880 - raw) * span_x == (3880 - raw) * 320) by (nonlinear_arith)
        requires
            span_x == 320,
    ;
    assert((raw - 262) * span_y == (raw - 262) * 240) by (nonlinear_arith)
        requires
            span_y == 240,
    ;
}

fn raw(high: u8, low: u8) -> (value: i32)
    ensures
        value == (256 * high + low) / 8,
        0 <= value <= 8191,
{
    let word = read_be16(high, low);
    assert(word >> 3 == word / 8) by (bit_vector);
    (word >> 3) as i32
}

/// Every point lies on the panel or on its last edges, and none is the origin.
pub proof fn points_lie_on_panel(x: Seq<u8>, y: Seq<u8>)
    ensures
        point_of(x, y) matches Some((column, row)) ==> 0 <= column <= 320 && 0 <= row <= 240
            && !(column == 0 && row == 0),
{
}

/// A reading at an edge lies on that edge, and so does any reading beyond it.
pub proof fn edges_lie_on_edges(raw: int)
    ensures
        raw >= 3880 ==> pixel_x(raw) == 0,
        raw <= 340 ==> pixel_x(raw) == 320,
        raw <= 262 ==> pixel_y(raw) == 0,
        raw >= 3850 ==> pixel_y(raw) == 240,
{
}

/// A finger that moves in one direction never makes the point move in the other:
/// greater readings lie nearer to the first edge of the x axis and further from that
/// of the y axis.
pub proof fn points_follow_the_finger(raw1: int, raw2: int)
    requires
        raw1 <= raw2,
    ensures
        pixel_x(raw1) >= pixel_x(raw2),
        pixel_y(raw1) <= pixel_y(raw2),
{
}

/// Between the edges a point lies on the straight line of the calibration, rounded
/// down: it is as many pixels from the first edge as the reading is steps, in the ratio
/// of the pixels to the steps of the axis.
pub proof fn points_lie_on_the_calibrated_line(raw: int)
    ensures
        340 <= raw <= 3880 ==> 3540 * pixel_x(raw) <= 320 * (3880 - raw) < 3540 * (pixel_x(raw)
            + 1),
        262 <= raw <= 3850 ==> 3588 * pixel_y(raw) <= 240 * (raw - 262) < 3588 * (pixel_y(raw)
            + 1),
{
}

/// What the bytes of the controller come to: each axis gives the pixel on its line or,
/// beyond an edge, the edge, and there is no point exactly where both axes give their
/// first pixel. `u` and `v` are the readings, the upper thirteen bits of two bytes.
pub proof fn readings_become_points(x: Seq<u8>, y: Seq<u8>, u: int, v: int)
    requires
        8 * u <= 256 * x[0] + x[1] < 8 * u + 8,
        8 * v <= 256 * y[0] + y[1] < 8 * v + 8,
    ensures
        point_of(x, y) is None <==> 320 * (3880 - u) < 3540 && 240 * (v - 262) < 3588,
        point_of(x, y) matches Some((column, row)) ==> {
            &&& u >= 3880 ==> column == 0
            &&& u <= 340 ==> column == 320
            &&& 340 <= u <= 3880 ==> 3540 * column <= 320 * (3880 - u) < 3540 * (column + 1)
            &&& v <= 262 ==> row == 0
            &&& v >= 3850 ==> row == 240
            &&& 262 <= v <= 3850 ==> 3588 * row <= 240 * (v - 262) < 3588 * (row + 1)
        },
{
    assert(raw_reading(x) == u);
    assert(raw_reading(y) == v);
}

} // verus!
