//! Viewport arithmetic for the two charts.
//!
//! All coordinates are fixed-point micro-units: one data unit is
//! `MICRO` micro-units.  The shell converts its floating-point samples to
//! micro-units at the boundary; every bound it ever draws with is computed
//! here, in exact integer arithmetic, so auto-ranging, zooming, panning
//! and hit-testing cannot produce degenerate or non-finite windows.

use vstd::prelude::*;

verus! {

/// Micro-units per data unit.
pub const MICRO: i64 = 1_000_000;

/// Largest magnitude a coordinate may take, in micro-units.  Samples and
/// manual bounds are clamped to this by the shell; it keeps every product
/// this module forms inside 128 bits and every result inside 64.
pub const COORD_LIMIT: i64 = 1_000_000_000_000_000;

/// Default number of samples the signal chart shows in auto mode.
pub const PLOT_WINDOW: usize = 2000;

/// The least element of a non-empty sequence.
pub open spec fn seq_min(s: Seq<i64>) -> int
    decreases s.len(),
{
    if s.len() <= 1 {
        if s.len() == 0 { 0 } else { s[0] as int }
    } else {
        let m = seq_min(s.drop_last());
        if s.last() < m { s.last() as int } else { m }
    }
}

/// The greatest element of a non-empty sequence.
pub open spec fn seq_max(s: Seq<i64>) -> int
    decreases s.len(),
{
    if s.len() <= 1 {
        if s.len() == 0 { 0 } else { s[0] as int }
    } else {
        let m = seq_max(s.drop_last());
        if s.last() > m { s.last() as int } else { m }
    }
}

/// What `auto_bounds` returns: the data's extent padded by a tenth of its
/// range on each side; a flat signal is padded by one unit, and an empty
/// one shown on the unit window.
pub open spec fn spec_auto_bounds(s: Seq<i64>) -> (int, int) {
    if s.len() == 0 {
        (0, MICRO as int)
    } else {
        let lo = seq_min(s);
        let hi = seq_max(s);
        let pad = if hi == lo { MICRO as int } else { (hi - lo) / 10 };
        (lo - pad, hi + pad)
    }
}

/// The extremes lie between the limits that bound every element.
proof fn lemma_minmax_bounds(s: Seq<i64>, limit: int)
    requires
        forall|i: int| 0 <= i < s.len() ==> -limit <= #[trigger] s[i] <= limit,
        limit >= 0,
    ensures
        s.len() > 0 ==> -limit <= seq_min(s) <= limit,
        s.len() > 0 ==> -limit <= seq_max(s) <= limit,
        seq_min(s) <= seq_max(s),
    decreases s.len(),
{
    if s.len() > 1 {
        lemma_minmax_bounds(s.drop_last(), limit);
    }
}

/// Auto y-bounds of a signal: its extent padded by a tenth of the range,
/// by one whole unit when the range is zero, and the unit window when the
/// signal is empty.  The result is always a proper window: `lo < hi`.
pub fn auto_bounds(data: &Vec<i64>) -> (r: (i64, i64))
    requires
        forall|i: int| 0 <= i < data@.len()
            ==> -COORD_LIMIT <= #[trigger] data@[i] <= COORD_LIMIT,
    ensures
        (r.0 as int, r.1 as int) == spec_auto_bounds(data@),
        r.0 < r.1,
{
    proof {
        lemma_minmax_bounds(data@, COORD_LIMIT as int);
    }
    if data.len() == 0 {
        return (0, MICRO);
    }
    let mut lo: i64 = data[0];
    let mut hi: i64 = data[0];
    let mut i: usize = 1;
    while i < data.len()
        invariant
            1 <= i <= data@.len(),
            forall|k: int| 0 <= k < data@.len()
                ==> -COORD_LIMIT <= #[trigger] data@[k] <= COORD_LIMIT,
            lo == seq_min(data@.take(i as int)),
            hi == seq_max(data@.take(i as int)),
            -COORD_LIMIT <= lo <= COORD_LIMIT,
            -COORD_LIMIT <= hi <= COORD_LIMIT,
        decreases data@.len() - i,
    {
        let v = data[i];
        proof {
            assert(data@.take(i + 1).drop_last() =~= data@.take(i as int));
            assert(data@.take(i + 1).last() == data@[i as int]);
        }
        if v < lo {
            lo = v;
        }
        if v > hi {
            hi = v;
        }
        i += 1;
    }
    proof {
        assert(data@.take(data@.len() as int) =~= data@);
    }
    let pad: i64 = if hi == lo { MICRO } else { (hi - lo) / 10 };
    (lo - pad, hi + pad)
}

/// What `signal_x_bounds` returns: the manual window when one is set (its
/// upper bound above its lower), else the newest `window` samples.
pub open spec fn spec_signal_x_bounds(
    len: int, window: int, x_min: int, x_max: int) -> (int, int) {
    if x_max > x_min {
        (x_min, x_max)
    } else if len <= window {
        (0, len * MICRO)
    } else {
        ((len - window) * MICRO, len * MICRO)
    }
}

/// The x-window of the signal chart, in micro-units of the sample index:
/// the manual window when set, else the newest `window` samples, which
/// bounds drawing cost however long the stream has run.
pub fn signal_x_bounds(len: usize, window: usize, x_min: i64, x_max: i64) -> (r: (i64, i64))
    requires
        len <= 1_000_000_000,
        window <= 1_000_000_000,
    ensures
        (r.0 as int, r.1 as int)
            == spec_signal_x_bounds(len as int, window as int, x_min as int, x_max as int),
{
    if x_max > x_min {
        (x_min, x_max)
    } else if len <= window {
        (0, (len as i64) * MICRO)
    } else {
        (((len - window) as i64) * MICRO, (len as i64) * MICRO)
    }
}

/// What `zoom_range` returns.  The window shrinks by `den/num` around the
/// point a fraction `fnum/fden` across it; the new window is clamped to
/// the absolute limits where given, and a window that would collapse
/// below one micro-unit leaves the old one standing.
pub open spec fn spec_zoom(
    lo: int, hi: int, num: int, den: int, fnum: int, fden: int,
    amin: Option<i64>, amax: Option<i64>) -> (int, int) {
    let span = hi - lo;
    let center = lo + fnum * span / fden;
    let nspan = span * den / num;
    let rlo0 = center - fnum * nspan / fden;
    let rhi0 = center + (fden - fnum) * nspan / fden;
    let rlo = match amin {
        Some(m) => if rlo0 < m { m as int } else { rlo0 },
        None => rlo0,
    };
    let rhi = match amax {
        Some(m) => if rhi0 > m { m as int } else { rhi0 },
        None => rhi0,
    };
    if rhi - rlo < 1 {
        (lo, hi)
    } else {
        (rlo, rhi)
    }
}

/// Zoom the window `[lo, hi]` by the factor `num/den` around the point a
/// fraction `fnum/fden` across it.  A factor above one zooms in.  The
/// lower bound is clamped at `amin` and the upper at `amax` where given;
/// a zoom that would collapse the window below one micro-unit is a no-op.
pub fn zoom_range(
    lo: i64, hi: i64, num: u32, den: u32, fnum: u32, fden: u32,
    amin: Option<i64>, amax: Option<i64>) -> (r: (i64, i64))
    requires
        -COORD_LIMIT <= lo < hi <= COORD_LIMIT,
        1 <= num <= 1000,
        1 <= den <= 1000,
        1 <= fden <= 1000000,
        fnum <= fden,
        amin matches Some(m) ==> -COORD_LIMIT <= m <= COORD_LIMIT,
        amax matches Some(m) ==> -COORD_LIMIT <= m <= COORD_LIMIT,
    ensures
        (r.0 as int, r.1 as int) == spec_zoom(
            lo as int, hi as int, num as int, den as int,
            fnum as int, fden as int, amin, amax),
        r.0 < r.1,
{
    let span: u128 = (hi - lo) as u128;
    proof {
        vstd::arithmetic::mul::lemma_mul_nonnegative(fnum as int, span as int);
        assert((fnum as int) * (span as int) <= 1000000 * (2 * COORD_LIMIT as int))
            by (nonlinear_arith)
            requires 0 <= fnum as int <= 1000000, 0 <= span as int <= 2 * COORD_LIMIT as int;
        assert((fnum as int) * (span as int) <= (fden as int) * (span as int)) by (nonlinear_arith)
            requires fnum <= fden, span >= 0;
        vstd::arithmetic::div_mod::lemma_div_pos_is_pos((fnum as int) * (span as int), fden as int);
        vstd::arithmetic::div_mod::lemma_div_multiples_vanish(span as int, fden as int);
        vstd::arithmetic::div_mod::lemma_div_is_ordered(
            (fnum as int) * (span as int), (fden as int) * (span as int), fden as int);
    }
    let cq: u128 = (fnum as u128) * span / (fden as u128);
    let center: i128 = lo as i128 + cq as i128;
    proof {
        vstd::arithmetic::mul::lemma_mul_nonnegative(span as int, den as int);
        vstd::arithmetic::div_mod::lemma_div_pos_is_pos((span as int) * (den as int), num as int);
        assert((span as int) * (den as int) <= 2 * (COORD_LIMIT as int) * 1000) by (nonlinear_arith)
            requires 0 <= span as int <= 2 * (COORD_LIMIT as int), 0 < den <= 1000;
        vstd::arithmetic::div_mod::lemma_div_nonincreasing((span as int) * (den as int), num as int);
    }
    let nspan: u128 = span * (den as u128) / (num as u128);
    proof {
        vstd::arithmetic::mul::lemma_mul_nonnegative(fnum as int, nspan as int);
        assert((fnum as int) * (nspan as int) <= 1000000 * (2000 * COORD_LIMIT as int))
            by (nonlinear_arith)
            requires 0 <= fnum as int <= 1000000, 0 <= nspan as int <= 2000 * COORD_LIMIT as int;
        assert(((fden - fnum) as int) * (nspan as int) <= 1000000 * (2000 * COORD_LIMIT as int))
            by (nonlinear_arith)
            requires 0 <= (fden - fnum) as int <= 1000000,
                0 <= nspan as int <= 2000 * COORD_LIMIT as int;
        assert((fnum as int) * (nspan as int) <= (fden as int) * (nspan as int)) by (nonlinear_arith)
            requires fnum <= fden, nspan >= 0;
        vstd::arithmetic::div_mod::lemma_div_pos_is_pos((fnum as int) * (nspan as int), fden as int);
        vstd::arithmetic::div_mod::lemma_div_multiples_vanish(nspan as int, fden as int);
        vstd::arithmetic::div_mod::lemma_div_is_ordered(
            (fnum as int) * (nspan as int), (fden as int) * (nspan as int), fden as int);
        assert(((fden - fnum) as int) * (nspan as int) <= (fden as int) * (nspan as int))
            by (nonlinear_arith)
            requires fnum <= fden, nspan >= 0;
        vstd::arithmetic::mul::lemma_mul_nonnegative((fden - fnum) as int, nspan as int);
        vstd::arithmetic::div_mod::lemma_div_pos_is_pos(
            ((fden - fnum) as int) * (nspan as int), fden as int);
        vstd::arithmetic::div_mod::lemma_div_is_ordered(
            ((fden - fnum) as int) * (nspan as int), (fden as int) * (nspan as int), fden as int);
    }
    let rlo0: i128 = center - ((fnum as u128) * nspan / (fden as u128)) as i128;
    let rhi0: i128 = center + (((fden - fnum) as u128) * nspan / (fden as u128)) as i128;
    let rlo: i128 = match amin {
        Some(m) => if rlo0 < m as i128 { m as i128 } else { rlo0 },
        None => rlo0,
    };
    let rhi: i128 = match amax {
        Some(m) => if rhi0 > m as i128 { m as i128 } else { rhi0 },
        None => rhi0,
    };
    if rhi - rlo < 1 {
        (lo, hi)
    } else {
        (rlo as i64, rhi as i64)
    }
}

/// Truncating division, as machine division behaves on a signed numerator.
pub open spec fn trunc_div(n: int, d: int) -> int {
    if n >= 0 {
        n / d
    } else {
        -((-n) / d)
    }
}

/// What `pan_window` returns: both bounds moved by the data-space
/// equivalent of the pixel delta.
pub open spec fn spec_pan(lo: int, hi: int, delta_px: int, px_size: int) -> (int, int) {
    let d = trunc_div(delta_px * (hi - lo), px_size);
    (lo + d, hi + d)
}

/// Translate a window by a pixel delta from a drag: the delta scales to
/// data space through the window's own span and the chart's pixel size.
/// The caller negates the x delta (the data follows the cursor) and keeps
/// the y delta (pixel rows grow downward).
pub fn pan_window(lo: i64, hi: i64, delta_px: i64, px_size: u16) -> (r: (i64, i64))
    requires
        -COORD_LIMIT <= lo < hi <= COORD_LIMIT,
        -100_000 <= delta_px <= 100_000,
        px_size >= 1,
        trunc_div(delta_px * ((hi - lo) as int), px_size as int) <= COORD_LIMIT,
        trunc_div(delta_px * ((hi - lo) as int), px_size as int) >= -COORD_LIMIT,
    ensures
        (r.0 as int, r.1 as int) == spec_pan(lo as int, hi as int, delta_px as int, px_size as int),
        r.0 < r.1,
{
    let mag: u64 = if delta_px >= 0 { delta_px as u64 } else { (-delta_px) as u64 };
    proof {
        assert((mag as int) * ((hi - lo) as int) <= 100_000 * (2 * COORD_LIMIT as int))
            by (nonlinear_arith)
            requires 0 <= mag as int <= 100_000, 0 <= (hi - lo) as int <= 2 * COORD_LIMIT as int;
        vstd::arithmetic::mul::lemma_mul_nonnegative(mag as int, (hi - lo) as int);
        vstd::arithmetic::div_mod::lemma_div_pos_is_pos(
            (mag as int) * ((hi - lo) as int), px_size as int);
    }
    let q: u128 = (mag as u128) * ((hi - lo) as u128) / (px_size as u128);
    let d: i128 = if delta_px >= 0 { q as i128 } else { -(q as i128) };
    proof {
        assert((mag as int) * ((hi - lo) as int) == if delta_px >= 0 {
            (delta_px as int) * ((hi - lo) as int)
        } else {
            -((delta_px as int) * ((hi - lo) as int))
        }) by (nonlinear_arith)
            requires mag as int == if delta_px >= 0 { delta_px as int } else { -(delta_px as int) };
        assert(d == trunc_div((delta_px as int) * ((hi - lo) as int), px_size as int));
    }
    ((lo as i128 + d) as i64, (hi as i128 + d) as i64)
}

/// What `pixel_to_data` returns for a pixel inside the chart.
pub open spec fn spec_pixel_to_data(
    px: int, py: int, rx: int, ry: int, rw: int, rh: int,
    x0: int, x1: int, y0: int, y1: int) -> (int, int) {
    let w = if rw >= 1 { rw } else { 1 };
    let h = if rh >= 1 { rh } else { 1 };
    let dx = x0 + (px - rx) * (x1 - x0) / w;
    let dy = y0 + (h - (py - ry)) * (y1 - y0) / h;
    (dx, dy)
}

/// Map a terminal cell to data coordinates under the current bounds, or
/// `None` when it lies outside the chart rectangle.  The y axis is
/// inverted: pixel rows grow downward.
pub fn pixel_to_data(
    px: u16, py: u16, rx: u16, ry: u16, rw: u16, rh: u16,
    x0: i64, x1: i64, y0: i64, y1: i64) -> (r: Option<(i64, i64)>)
    requires
        -COORD_LIMIT <= x0 < x1 <= COORD_LIMIT,
        -COORD_LIMIT <= y0 < y1 <= COORD_LIMIT,
    ensures
        (px >= rx && px < rx + rw && py >= ry && py < ry + rh) <==> r is Some,
        r matches Some(p) ==> (p.0 as int, p.1 as int) == spec_pixel_to_data(
            px as int, py as int, rx as int, ry as int, rw as int, rh as int,
            x0 as int, x1 as int, y0 as int, y1 as int),
    {
    let inside = (px as u32) >= (rx as u32) && (px as u32) < (rx as u32) + (rw as u32)
        && (py as u32) >= (ry as u32) && (py as u32) < (ry as u32) + (rh as u32);
    if !inside {
        return None;
    }
    let w: u128 = if rw >= 1 { rw as u128 } else { 1 };
    let h: u128 = if rh >= 1 { rh as u128 } else { 1 };
    proof {
        vstd::arithmetic::mul::lemma_mul_nonnegative((px - rx) as int, (x1 - x0) as int);
        assert(((px - rx) as int) * ((x1 - x0) as int) <= 65536 * (2 * COORD_LIMIT as int))
            by (nonlinear_arith)
            requires 0 <= ((px - rx) as int) && ((px - rx) as int) < 65536, 0 <= (x1 - x0) as int <= 2 * COORD_LIMIT as int;
        assert(((px - rx) as int) * ((x1 - x0) as int) <= (w as int) * ((x1 - x0) as int))
            by (nonlinear_arith)
            requires 0 <= (px - rx) as int <= (w as int), (x1 - x0) as int >= 0;
        vstd::arithmetic::div_mod::lemma_div_pos_is_pos(
            ((px - rx) as int) * ((x1 - x0) as int), w as int);
        vstd::arithmetic::div_mod::lemma_div_multiples_vanish((x1 - x0) as int, w as int);
        vstd::arithmetic::div_mod::lemma_div_is_ordered(
            ((px - rx) as int) * ((x1 - x0) as int), (w as int) * ((x1 - x0) as int), w as int);
    }
    let fx: u128 = ((px - rx) as u128) * ((x1 - x0) as u128) / w;
    proof {
        vstd::arithmetic::mul::lemma_mul_nonnegative((h as int) - ((py - ry) as int), (y1 - y0) as int);
        assert(((h as int) - ((py - ry) as int)) * ((y1 - y0) as int)
            <= 65536 * (2 * COORD_LIMIT as int))
            by (nonlinear_arith)
            requires 0 <= (h as int) - ((py - ry) as int),
                (h as int) - ((py - ry) as int) < 65536,
                0 <= (y1 - y0) as int <= 2 * COORD_LIMIT as int;
        assert(((h as int) - ((py - ry) as int)) * ((y1 - y0) as int)
            <= (h as int) * ((y1 - y0) as int))
            by (nonlinear_arith)
            requires 0 <= (h as int) - ((py - ry) as int) <= (h as int), (y1 - y0) as int >= 0;
        vstd::arithmetic::div_mod::lemma_div_pos_is_pos(
            ((h as int) - ((py - ry) as int)) * ((y1 - y0) as int), h as int);
        vstd::arithmetic::div_mod::lemma_div_multiples_vanish((y1 - y0) as int, h as int);
        vstd::arithmetic::div_mod::lemma_div_is_ordered(
            ((h as int) - ((py - ry) as int)) * ((y1 - y0) as int),
            (h as int) * ((y1 - y0) as int), h as int);
    }
    let fy: u128 = (h - ((py - ry) as u128)) * ((y1 - y0) as u128) / h;
    Some(((x0 as i128 + fx as i128) as i64, (y0 as i128 + fy as i128) as i64))
}

/// Why a manual bound entry was rejected.
#[derive(Debug, Clone, Copy, PartialEq, Eq, Structural)]
pub enum BoundError {
    /// The lower bound was not below the upper one.
    InvalidBound,
}

/// Validate a manual axis window: the lower bound must lie strictly below
/// the upper.  Rejected entries leave every state untouched; the caller
/// applies accepted ones.
pub fn check_manual_bounds(lo: i64, hi: i64) -> (r: Result<(i64, i64), BoundError>)
    ensures
        lo < hi ==> r == Ok::<(i64, i64), BoundError>((lo, hi)),
        lo >= hi ==> r == Err::<(i64, i64), BoundError>(BoundError::InvalidBound),
{
    if lo < hi {
        Ok((lo, hi))
    } else {
        Err(BoundError::InvalidBound)
    }
}

/// Division by a divisor of the dividend is exact.
proof fn lemma_exact_div(n: int, d: int)
    requires
        d > 0,
        n >= 0,
        n % d == 0,
    ensures
        (n / d) * d == n,
{
    vstd::arithmetic::div_mod::lemma_fundamental_div_mod(n, d);
    assert((n / d) * d == d * (n / d)) by (nonlinear_arith);
}

/// Zooming in by a factor and out again by its inverse around the same
/// point restores the window exactly, when no absolute clamp engages and
/// every intermediate division is exact.  (With inexact divisions or an
/// engaged clamp the window may differ: zooming `[0, 3]` by `2/1` halves
/// the span to one micro-unit, and the inverse restores only two.)
pub proof fn lemma_zoom_inverse(
    lo: int, hi: int, num: int, den: int, fnum: int, fden: int)
    requires
        lo < hi,
        1 <= num,
        1 <= den,
        1 <= fden,
        0 <= fnum <= fden,
        (fnum * (hi - lo)) % fden == 0,
        ((hi - lo) * den) % num == 0,
        (fnum * ((hi - lo) * den / num)) % fden == 0,
        (hi - lo) * den / num >= 1,
    ensures
        ({
            let z1 = spec_zoom(lo, hi, num, den, fnum, fden, None, None);
            spec_zoom(z1.0, z1.1, den, num, fnum, fden, None, None) == (lo, hi)
        }),
{
    let span = hi - lo;
    vstd::arithmetic::mul::lemma_mul_nonnegative(fnum, span);
    let c = lo + fnum * span / fden;
    let s1 = span * den / num;
    vstd::arithmetic::mul::lemma_mul_nonnegative(span, den);
    vstd::arithmetic::div_mod::lemma_div_pos_is_pos(span * den, num);
    vstd::arithmetic::mul::lemma_mul_nonnegative(fnum, s1);
    lemma_exact_div(fnum * span, fden);
    lemma_exact_div(span * den, num);
    lemma_exact_div(fnum * s1, fden);
    let z1lo = c - fnum * s1 / fden;
    let z1hi = c + (fden - fnum) * s1 / fden;
    assert(((fden - fnum) * s1) % fden == 0 && (fden - fnum) * s1 / fden + fnum * s1 / fden == s1)
        by {
        assert((fden - fnum) * s1 == fden * s1 - fnum * s1) by (nonlinear_arith);
        let q = fnum * s1 / fden;
        assert(fnum * s1 == q * fden);
        assert(fden * s1 - q * fden == (s1 - q) * fden) by (nonlinear_arith);
        vstd::arithmetic::div_mod::lemma_mod_multiples_basic(s1 - q, fden);
        vstd::arithmetic::div_mod::lemma_div_multiples_vanish(s1 - q, fden);
    }
    assert(z1hi - z1lo == s1);
    assert(z1hi - z1lo >= 1);
    let z1 = spec_zoom(lo, hi, num, den, fnum, fden, None, None);
    assert(z1 == (z1lo, z1hi));
    // the inverse zoom: factor den/num on [z1lo, z1hi]
    let s2 = s1 * num / den;
    assert(s1 * num == span * den);
    assert((s1 * num) % den == 0 && s2 == span) by {
        vstd::arithmetic::div_mod::lemma_mod_multiples_basic(span, den);
        vstd::arithmetic::div_mod::lemma_div_multiples_vanish(span, den);
        assert(span * den == den * span) by (nonlinear_arith);
    }
    vstd::arithmetic::mul::lemma_mul_nonnegative(fnum, s2);
    lemma_exact_div(fnum * s2, fden);
    let c2 = z1lo + fnum * s1 / fden;
    assert(c2 == c);
    let z2lo = c2 - fnum * s2 / fden;
    let z2hi = c2 + (fden - fnum) * s2 / fden;
    assert(z2lo == lo);
    assert(((fden - fnum) * s2) % fden == 0 && (fden - fnum) * s2 / fden + fnum * s2 / fden == s2)
        by {
        assert((fden - fnum) * s2 == fden * s2 - fnum * s2) by (nonlinear_arith);
        let q = fnum * s2 / fden;
        assert(fnum * s2 == q * fden);
        assert(fden * s2 - q * fden == (s2 - q) * fden) by (nonlinear_arith);
        vstd::arithmetic::div_mod::lemma_mod_multiples_basic(s2 - q, fden);
        vstd::arithmetic::div_mod::lemma_div_multiples_vanish(s2 - q, fden);
    }
    assert(z2hi == lo + span);
    assert(z2hi - z2lo == span >= 1);
}

} // verus!
