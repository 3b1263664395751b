use crate::canvas::{blank, canvas_pixels, fill_rect, has_size, new_canvas, Canvas};
use crate::scale::{
    lemma_scaled_height_monotone, log2_table_ok, scale_height, scaled_height, Log2Table, ScaleMode,
};
use vstd::arithmetic::div_mod::{
    lemma_div_is_ordered, lemma_fundamental_div_mod, lemma_fundamental_div_mod_converse,
};
use vstd::math::abs;
use vstd::prelude::*;

verus! {

/// Vertical layout of the bars.
#[derive(Debug, Clone, Copy, PartialEq, Eq, Structural)]
pub enum WaveFormMode {
    /// One bar per slot, standing on the bottom edge.
    Half,
    /// Two half-bars around the horizontal midline, one per sign.
    Full,
    /// One bar per slot, centred vertically.
    FullSymmetry,
}

/// What a waveform image looks like.
#[derive(Debug, Clone, Copy)]
pub struct GenerateParams {
    pub image_width: u32,
    pub image_height: u32,
    pub bar_width: u32,
    pub bar_padding: u32,
    pub wave_form_mode: WaveFormMode,
    pub scale_mode: ScaleMode,
    /// Red, green, blue and alpha of the bars.
    pub fill_color: [u8; 4],
}

/// Distance from one bar's left edge to the next one's.
pub open spec fn pitch(p: GenerateParams) -> int {
    p.bar_width + p.bar_padding
}

/// How many bars fit: `floor((image_width + bar_padding) / (bar_width + bar_padding))`.
pub open spec fn bar_count_of(p: GenerateParams) -> int {
    (p.image_width + p.bar_padding) / pitch(p)
}

/// Left edge of bar `k`.
pub open spec fn bar_left(p: GenerateParams, k: int) -> int {
    k * pitch(p)
}

/// First sample of bar `k` when `n` samples are spread over `b` bars: sample
/// `i` belongs to bar `floor(i * b / n)`, so bar `k` starts at `ceil(k * n / b)`.
pub open spec fn bar_start(k: int, n: int, b: int) -> int {
    (k * n + b - 1) / b
}

/// Smallest sample of `s[lo..hi]`, or `i16::MAX` when the range is empty.
pub open spec fn range_min(s: Seq<i16>, lo: int, hi: int) -> int
    decreases hi - lo,
{
    if hi <= lo {
        i16::MAX as int
    } else {
        let m = range_min(s, lo, hi - 1);
        if (s[hi - 1] as int) < m {
            s[hi - 1] as int
        } else {
            m
        }
    }
}

/// Largest sample of `s[lo..hi]`, or `i16::MIN` when the range is empty.
pub open spec fn range_max(s: Seq<i16>, lo: int, hi: int) -> int
    decreases hi - lo,
{
    if hi <= lo {
        i16::MIN as int
    } else {
        let m = range_max(s, lo, hi - 1);
        if (s[hi - 1] as int) > m {
            s[hi - 1] as int
        } else {
            m
        }
    }
}

/// Number of bars that fit in the image width.
pub fn bar_count(p: &GenerateParams) -> (r: u64)
    requires
        pitch(*p) > 0,
    ensures
        r == bar_count_of(*p),
{
    (p.image_width as u64 + p.bar_padding as u64) / (p.bar_width as u64 + p.bar_padding as u64)
}

/// Index of the first sample of bar `k` (see `bar_start`).
pub fn first_sample_of_bar(k: u64, n: usize, b: u64) -> (r: usize)
    requires
        0 < b,
        k <= b,
    ensures
        r == bar_start(k as int, n as int, b as int),
        r <= n,
{
    proof {
        assert((k as int) * (n as int) <= (b as int) * (n as int)) by (nonlinear_arith)
            requires
                k <= b,
        ;
        assert((b as int) * (n as int) <= 0xffff_ffff_ffff_ffff * 0xffff_ffff_ffff_ffff)
            by (nonlinear_arith)
            requires
                b <= 0xffff_ffff_ffff_ffff,
                n <= 0xffff_ffff_ffff_ffff,
        ;
        assert(((k as int) * (n as int) + b - 1) / (b as int) <= n) by (nonlinear_arith)
            requires
                (k as int) * (n as int) <= (b as int) * (n as int),
                0 < b,
        ;
        assert(((k as int) * (n as int) + b - 1) / (b as int) >= 0) by (nonlinear_arith)
            requires
                (k as int) * (n as int) >= 0,
                0 < b,
        ;
    }
    (((k as u128) * (n as u128) + (b as u128) - 1) / (b as u128)) as usize
}

/// Smallest and largest sample of `samples[lo..hi]`, starting from the
/// sentinels `i16::MAX` and `i16::MIN`.
pub fn bar_extremes(samples: &[i16], lo: usize, hi: usize) -> (r: (i16, i16))
    requires
        lo <= hi <= samples@.len(),
    ensures
        r.0 == range_min(samples@, lo as int, hi as int),
        r.1 == range_max(samples@, lo as int, hi as int),
{
    let mut mn: i16 = i16::MAX;
    let mut mx: i16 = i16::MIN;
    let mut i: usize = lo;
    while i < hi
        invariant
            lo <= i <= hi <= samples@.len(),
            mn == range_min(samples@, lo as int, i as int),
            mx == range_max(samples@, lo as int, i as int),
        decreases hi - i,
    {
        if samples[i] < mn {
            mn = samples[i];
        }
        if samples[i] > mx {
            mx = samples[i];
        }
        i = i + 1;
    }
    (mn, mx)
}

/// Why a waveform could not be drawn.
#[derive(Debug, Clone, Copy, PartialEq, Eq, Structural)]
pub enum RenderError {
    /// The image has no width or no height, or bars have neither width nor
    /// padding.
    InvalidConfig,
    /// There are no samples to draw.
    EmptySamples,
    /// The pixel buffer would not fit in memory addresses.
    ImageTooLarge,
}

/// A configuration that can be drawn.
pub open spec fn config_ok(p: GenerateParams) -> bool {
    p.image_width > 0 && p.image_height > 0 && pitch(p) > 0
}

/// Whether an RGBA8 buffer of the configured size fits in memory addresses.
pub open spec fn buffer_fits(p: GenerateParams) -> bool {
    4 * (p.image_width as int) * (p.image_height as int) <= usize::MAX
}

/// Height of the plot that a magnitude is scaled to: the whole image, or
/// one half of it in `Full` mode.
pub open spec fn plot_height_of(p: GenerateParams) -> int {
    match p.wave_form_mode {
        WaveFormMode::Full => (p.image_height / 2) as int,
        _ => p.image_height as int,
    }
}

/// Magnitude that reaches the top of the plot: the whole 16-bit span, or
/// one sign of it in `Full` mode.
pub open spec fn max_plot_value_of(p: GenerateParams) -> int {
    match p.wave_form_mode {
        WaveFormMode::Full => 32768,
        _ => 65535,
    }
}

/// Rows `[top, bottom)` that a bar with extremes `mn` and `mx` covers; a bar
/// without samples covers none.
pub open spec fn rows_of(p: GenerateParams, log2: Seq<u64>, mn: int, mx: int, empty: bool) -> (int, int) {
    let plot = plot_height_of(p);
    let mv = max_plot_value_of(p);
    let h = p.image_height as int;
    if empty {
        (0, 0)
    } else {
        match p.wave_form_mode {
            WaveFormMode::Half => {
                let height = scaled_height(mx - mn, plot, mv, p.scale_mode, log2);
                (h - height, h)
            },
            WaveFormMode::FullSymmetry => {
                let height = scaled_height(mx - mn, plot, mv, p.scale_mode, log2);
                ((h - height) / 2, (h - height) / 2 + height)
            },
            WaveFormMode::Full => {
                let upper = scaled_height(abs(mx) as int, plot, mv, p.scale_mode, log2);
                let lower = scaled_height(abs(mn) as int, plot, mv, p.scale_mode, log2);
                (
                    if mx > 0 {
                        plot - upper
                    } else {
                        plot + upper
                    },
                    if mn > 0 {
                        plot - lower
                    } else {
                        plot + lower
                    },
                )
            },
        }
    }
}

/// Rows that bar `k` covers, from the samples assigned to it.
pub open spec fn bar_rows_of(s: Seq<i16>, p: GenerateParams, log2: Seq<u64>, k: int) -> (int, int) {
    let b = bar_count_of(p);
    let lo = bar_start(k, s.len() as int, b);
    let hi = bar_start(k + 1, s.len() as int, b);
    rows_of(p, log2, range_min(s, lo, hi), range_max(s, lo, hi), hi <= lo)
}

/// Whether pixel `(x, y)` is painted by one of the bars `0..nbars`: the bar
/// whose slot holds column `x`, when `x` is in the bar and not in the padding
/// after it, and `y` is among the bar's rows.
pub open spec fn painted_by(s: Seq<i16>, p: GenerateParams, log2: Seq<u64>, x: int, y: int, nbars: int) -> bool {
    let k = x / pitch(p);
    &&& k < nbars
    &&& x < bar_left(p, k) + p.bar_width
    &&& bar_rows_of(s, p, log2, k).0 <= y < bar_rows_of(s, p, log2, k).1
}

/// The channels of pixel `(x, y)` of the waveform of `s`.
pub open spec fn waveform_pixel(s: Seq<i16>, p: GenerateParams, log2: Seq<u64>, x: int, y: int) -> Seq<u8> {
    if painted_by(s, p, log2, x, y, bar_count_of(p)) {
        p.fill_color@
    } else {
        blank()
    }
}

/// `c` is the waveform of `s`: an `image_width` by `image_height` canvas
/// holding `waveform_pixel` everywhere.
pub open spec fn is_waveform(c: Canvas, s: Seq<i16>, p: GenerateParams, log2: Seq<u64>) -> bool {
    &&& has_size(canvas_pixels(c), p.image_width as int, p.image_height as int)
    &&& forall|y: int, x: int|
        0 <= y < p.image_height && 0 <= x < p.image_width ==> (#[trigger] canvas_pixels(c)[y][x])@
            == waveform_pixel(s, p, log2, x, y)
}

/// Later bars never start before earlier ones.
pub proof fn lemma_bar_start_monotone(k1: int, k2: int, n: int, b: int)
    requires
        0 <= k1 <= k2,
        0 <= n,
        0 < b,
    ensures
        0 <= bar_start(k1, n, b) <= bar_start(k2, n, b),
{
    assert(k1 * n <= k2 * n) by (nonlinear_arith)
        requires
            k1 <= k2,
            0 <= n,
    ;
    assert(0 <= k1 * n) by (nonlinear_arith)
        requires
            0 <= k1,
            0 <= n,
    ;
    lemma_div_is_ordered(k1 * n + b - 1, k2 * n + b - 1, b);
    lemma_div_is_ordered(0, k1 * n + b - 1, b);
}

/// A non-empty range has its smallest sample no larger than its largest.
pub proof fn lemma_min_le_max(s: Seq<i16>, lo: int, hi: int)
    requires
        0 <= lo < hi <= s.len(),
    ensures
        range_min(s, lo, hi) <= range_max(s, lo, hi),
    decreases hi - lo,
{
    if hi - 1 > lo {
        lemma_min_le_max(s, lo, hi - 1);
    }
}

/// The bar whose slot starts at `k * pitch` owns exactly the columns of
/// that slot.
proof fn lemma_column_owner(x: int, k: int, pitch: int, width: int)
    requires
        0 <= x,
        0 <= k,
        0 <= width <= pitch,
        0 < pitch,
    ensures
        k * pitch <= x < k * pitch + width ==> x / pitch == k,
        x / pitch == k ==> k * pitch <= x,
{
    if k * pitch <= x < k * pitch + width {
        lemma_fundamental_div_mod_converse(x, pitch, k, x - k * pitch);
    }
    lemma_fundamental_div_mod(x, pitch);
    assert(pitch * (x / pitch) == (x / pitch) * pitch) by (nonlinear_arith);
    assert(0 <= x % pitch) by {
        vstd::arithmetic::div_mod::lemma_mod_pos_bound(x, pitch);
    }
}

/// A bar whose extremes are ordered 16-bit samples covers rows that end at
/// or below where they start, inside the image.
pub proof fn lemma_rows_ordered(p: GenerateParams, log2: Seq<u64>, mn: int, mx: int)
    requires
        i16::MIN <= mn <= mx <= i16::MAX,
        log2_table_ok(log2),
    ensures
        0 <= rows_of(p, log2, mn, mx, false).0 <= rows_of(p, log2, mn, mx, false).1 <= p.image_height,
{
    let plot = plot_height_of(p);
    let mv = max_plot_value_of(p);
    match p.wave_form_mode {
        WaveFormMode::Full => {
            lemma_scaled_height_monotone(abs(mx) as int, abs(mx) as int, plot, mv, p.scale_mode, log2);
            lemma_scaled_height_monotone(abs(mn) as int, abs(mn) as int, plot, mv, p.scale_mode, log2);
            if mx > 0 && mn > 0 {
                lemma_scaled_height_monotone(mn, mx, plot, mv, p.scale_mode, log2);
            }
            if mx <= 0 {
                lemma_scaled_height_monotone(abs(mx) as int, abs(mn) as int, plot, mv, p.scale_mode, log2);
            }
        },
        _ => {
            lemma_scaled_height_monotone(mx - mn, mx - mn, plot, mv, p.scale_mode, log2);
        },
    }
}

/// Magnitude of a sample, as a non-negative value.
fn magnitude(v: i16) -> (r: u32)
    ensures
        r == abs(v as int) as int,
{
    if v < 0 {
        (0 - (v as i32)) as u32
    } else {
        v as u32
    }
}

/// Rows `[top, bottom)` of a bar with extremes `mn` and `mx` (see `rows_of`).
pub fn bar_rows(p: &GenerateParams, log2: &Log2Table, mn: i16, mx: i16, empty: bool) -> (r: (u64, u64))
    requires
        !empty ==> mn <= mx,
    ensures
        r.0 == rows_of(*p, log2@, mn as int, mx as int, empty).0,
        r.1 == rows_of(*p, log2@, mn as int, mx as int, empty).1,
        r.0 <= r.1 <= p.image_height,
{
    if empty {
        return (0, 0);
    }
    let h = p.image_height as u64;
    match p.wave_form_mode {
        WaveFormMode::Half => {
            let height = scale_height((mx as i32 - mn as i32) as u32, p.image_height, 65535, p.scale_mode, log2);
            (h - height as u64, h)
        },
        WaveFormMode::FullSymmetry => {
            let height = scale_height((mx as i32 - mn as i32) as u32, p.image_height, 65535, p.scale_mode, log2);
            let top = (h - height as u64) / 2;
            (top, top + height as u64)
        },
        WaveFormMode::Full => {
            let plot = p.image_height / 2;
            let upper = scale_height(magnitude(mx), plot, 32768, p.scale_mode, log2);
            let lower = scale_height(magnitude(mn), plot, 32768, p.scale_mode, log2);
            proof {
                lemma_rows_ordered(*p, log2@, mn as int, mx as int);
            }
            let top: u64 = if mx > 0 { plot as u64 - upper as u64 } else { plot as u64 + upper as u64 };
            let bottom: u64 = if mn > 0 { plot as u64 - lower as u64 } else { plot as u64 + lower as u64 };
            (top, bottom)
        },
    }
}

/// Draws the waveform of `samples`: the samples are spread evenly over as
/// many bars as fit in the image width, and each bar is painted from the
/// smallest and largest of its samples, in the configured layout and scale.
/// `log2` is read for the logarithmic scale only.
pub fn generate_waveform(samples: &[i16], param: &GenerateParams, log2: &Log2Table) -> (r: Result<
    Canvas,
    RenderError,
>)
    ensures
        !config_ok(*param) <==> r == Err::<Canvas, RenderError>(RenderError::InvalidConfig),
        config_ok(*param) && samples@.len() == 0 <==> r == Err::<Canvas, RenderError>(
            RenderError::EmptySamples,
        ),
        config_ok(*param) && samples@.len() > 0 && !buffer_fits(*param) <==> r == Err::<
            Canvas,
            RenderError,
        >(RenderError::ImageTooLarge),
        r is Ok ==> is_waveform(r.unwrap(), samples@, *param, log2@),
{
    if param.image_width == 0 || param.image_height == 0 || (param.bar_width as u64) + (
    param.bar_padding as u64) == 0 {
        return Err(RenderError::InvalidConfig);
    }
    if samples.len() == 0 {
        return Err(RenderError::EmptySamples);
    }
    assert(4 * (param.image_width as int) * (param.image_height as int) <= 4 * 0xffff_ffff
        * 0xffff_ffff) by (nonlinear_arith)
        requires
            param.image_width <= 0xffff_ffff,
            param.image_height <= 0xffff_ffff,
    ;
    if 4 * (param.image_width as u128) * (param.image_height as u128) > usize::MAX as u128 {
        return Err(RenderError::ImageTooLarge);
    }
    let w = param.image_width;
    let h = param.image_height;
    let pitch_x: u64 = param.bar_width as u64 + param.bar_padding as u64;
    let n = samples.len();
    let b = bar_count(param);
    let mut canvas = new_canvas(w, h);
    proof {
        let a = w as int + param.bar_padding as int;
        lemma_fundamental_div_mod(a, pitch_x as int);
        vstd::arithmetic::div_mod::lemma_mod_pos_bound(a, pitch_x as int);
        assert(b * pitch_x == pitch_x * b) by (nonlinear_arith);
        assert forall|y: int, x: int|
            0 <= y < h && 0 <= x < w implies (#[trigger] canvas_pixels(canvas)[y][x])@ == (if painted_by(
            samples@,
            *param,
            log2@,
            x,
            y,
            0,
        ) {
            param.fill_color@
        } else {
            blank()
        }) by {
            vstd::arithmetic::div_mod::lemma_div_pos_is_pos(x, pitch_x as int);
        }
    }
    let mut k: u64 = 0;
    while k < b
        invariant
            0 <= k <= b,
            b == bar_count_of(*param),
            b * pitch_x <= w as int + param.bar_padding,
            pitch_x == pitch(*param),
            pitch_x > 0,
            n == samples@.len(),
            w == param.image_width,
            h == param.image_height,
            has_size(canvas_pixels(canvas), w as int, h as int),
            forall|y: int, x: int|
                0 <= y < h && 0 <= x < w ==> (#[trigger] canvas_pixels(canvas)[y][x])@ == (if painted_by(
                    samples@,
                    *param,
                    log2@,
                    x,
                    y,
                    k as int,
                ) {
                    param.fill_color@
                } else {
                    blank()
                }),
        decreases b - k,
    {
        proof {
            lemma_bar_start_monotone(k as int, k + 1, n as int, b as int);
            assert(k * pitch_x <= b * pitch_x) by (nonlinear_arith)
                requires
                    k <= b,
            ;
        }
        let lo = first_sample_of_bar(k, n, b);
        let hi = first_sample_of_bar(k + 1, n, b);
        let (mn, mx) = bar_extremes(samples, lo, hi);
        proof {
            if lo < hi {
                lemma_min_le_max(samples@, lo as int, hi as int);
            }
        }
        let (top, bottom) = bar_rows(param, log2, mn, mx, hi <= lo);
        let left = k * pitch_x;
        fill_rect(&mut canvas, w, h, left, top, param.bar_width as u64, bottom - top, param.fill_color);
        proof {
            assert forall|y: int, x: int|
                0 <= y < h && 0 <= x < w implies (#[trigger] canvas_pixels(canvas)[y][x])@ == (if painted_by(
                samples@,
                *param,
                log2@,
                x,
                y,
                k + 1,
            ) {
                param.fill_color@
            } else {
                blank()
            }) by {
                lemma_column_owner(x, k as int, pitch_x as int, param.bar_width as int);
            }
        }
        k = k + 1;
    }
    Ok(canvas)
}

} // verus!
