use crate::canvas::{blank, canvas_pixels, Canvas};
use crate::render::{
    bar_count_of, bar_left, bar_rows_of, bar_start, config_ok, is_waveform, lemma_bar_start_monotone,
    lemma_min_le_max, lemma_rows_ordered, painted_by, pitch, range_max, range_min,
    waveform_pixel, WaveFormMode, GenerateParams,
};
use crate::scale::{log2_table_ok, scaled_height};
use vstd::arithmetic::div_mod::{
    lemma_div_is_ordered, lemma_div_multiples_vanish, lemma_fundamental_div_mod,
    lemma_fundamental_div_mod_converse, lemma_mod_pos_bound,
};
use vstd::prelude::*;

verus! {

/// The bars partition the samples: the first bar starts at sample zero, the
/// last one ends after the last sample, and sample `i` lies in bar
/// `floor(i * b / n)` and in no other.
pub proof fn lemma_bars_partition_samples(n: int, b: int, i: int)
    requires
        0 < n,
        0 < b,
        0 <= i < n,
    ensures
        bar_start(0, n, b) == 0,
        bar_start(b, n, b) == n,
        0 <= i * b / n < b,
        bar_start(i * b / n, n, b) <= i < bar_start(i * b / n + 1, n, b),
        forall|k: int|
            0 <= k < b && bar_start(k, n, b) <= i < #[trigger] bar_start(k + 1, n, b) ==> k == i * b
                / n,
{
    lemma_fundamental_div_mod_converse(b - 1, b, 0, b - 1);
    assert(b * n + b - 1 == n * b + (b - 1)) by (nonlinear_arith);
    lemma_fundamental_div_mod_converse(b * n + b - 1, b, n, b - 1);
    let q = i * b / n;
    lemma_fundamental_div_mod(i * b, n);
    lemma_mod_pos_bound(i * b, n);
    let r = (i * b) % n;
    assert(i * b == q * n + r) by (nonlinear_arith)
        requires
            i * b == n * q + r,
    ;
    assert(0 <= q < b) by (nonlinear_arith)
        requires
            i * b == q * n + r,
            0 <= r < n,
            0 <= i < n,
            0 < b,
    ;
    // the bar of sample i starts at or before it
    assert(q * n + b - 1 <= i * b + b - 1);
    assert(i * b + b - 1 == i * b + (b - 1));
    lemma_fundamental_div_mod_converse(i * b + b - 1, b, i, b - 1);
    lemma_div_is_ordered(q * n + b - 1, i * b + b - 1, b);
    // and the next bar starts after it
    assert((q + 1) * n + b - 1 >= b * (i + 1)) by (nonlinear_arith)
        requires
            i * b == q * n + r,
            r < n,
    ;
    lemma_div_multiples_vanish(i + 1, b);
    lemma_div_is_ordered(b * (i + 1), (q + 1) * n + b - 1, b);
    assert forall|k: int|
        0 <= k < b && bar_start(k, n, b) <= i < #[trigger] bar_start(k + 1, n, b) implies k == q by {
        if k < q {
            lemma_bar_start_monotone(k + 1, q, n, b);
        }
        if k > q {
            lemma_bar_start_monotone(q + 1, k, n, b);
        }
    }
}

/// Bar `k` starts `k` pitches from the left edge, so each bar starts one
/// pitch (bar width plus padding) to the right of the one before it.
pub proof fn lemma_bar_lefts_increase(p: GenerateParams, k: int)
    requires
        config_ok(p),
    ensures
        bar_left(p, k) == k * (p.bar_width + p.bar_padding),
        bar_left(p, k + 1) - bar_left(p, k) == p.bar_width + p.bar_padding,
        bar_left(p, k) < bar_left(p, k + 1),
{
    assert((k + 1) * pitch(p) - k * pitch(p) == pitch(p)) by (nonlinear_arith);
}

/// Every sample of a range is zero: so are its extremes.
proof fn lemma_silent_extremes(s: Seq<i16>, lo: int, hi: int)
    requires
        0 <= lo < hi <= s.len(),
        forall|i: int| 0 <= i < s.len() ==> s[i] == 0,
    ensures
        range_min(s, lo, hi) == 0,
        range_max(s, lo, hi) == 0,
    decreases hi - lo,
{
    assert(s[hi - 1] == 0);
    if hi - 1 > lo {
        lemma_silent_extremes(s, lo, hi - 1);
    } else {
        assert(range_min(s, lo, lo) == i16::MAX);
        assert(range_max(s, lo, lo) == i16::MIN);
    }
    assert(range_min(s, lo, hi) == 0);
}

/// Silence draws nothing: when every sample is zero, every bar has zero
/// height and the waveform is blank everywhere, in every layout and scale.
pub proof fn lemma_silence_is_blank(c: Canvas, s: Seq<i16>, p: GenerateParams, log2: Seq<u64>)
    requires
        is_waveform(c, s, p, log2),
        config_ok(p),
        s.len() > 0,
        forall|i: int| 0 <= i < s.len() ==> s[i] == 0,
    ensures
        forall|k: int| 0 <= k < bar_count_of(p) ==> #[trigger] bar_rows_of(s, p, log2, k).0 == bar_rows_of(s, p, log2, k).1,
        forall|y: int, x: int|
            0 <= y < p.image_height && 0 <= x < p.image_width ==> (#[trigger] canvas_pixels(c)[y][x])@
                == blank(),
{
    let b = bar_count_of(p);
    let n = s.len() as int;
    assert forall|k: int| 0 <= k < bar_count_of(p) implies #[trigger] bar_rows_of(s, p, log2, k).0
        == bar_rows_of(s, p, log2, k).1 by {
        let lo = bar_start(k, n, b);
        let hi = bar_start(k + 1, n, b);
        lemma_bar_start_monotone(k, k + 1, n, b);
        lemma_bar_start_monotone(k + 1, b, n, b);
        lemma_bars_partition_samples(n, b, 0);
        if lo < hi {
            lemma_silent_extremes(s, lo, hi);
            let plot = crate::render::plot_height_of(p);
            let mv = crate::render::max_plot_value_of(p);
            assert(plot * 0 / mv == 0) by (nonlinear_arith)
                requires
                    mv > 0,
            ;
            assert(scaled_height(0, plot, mv, p.scale_mode, log2) == 0);
        }
    }
    assert forall|y: int, x: int|
        0 <= y < p.image_height && 0 <= x < p.image_width implies (#[trigger] canvas_pixels(c)[y][x])@
        == blank() by {
        let k = x / pitch(p);
        if painted_by(s, p, log2, x, y, b) {
            vstd::arithmetic::div_mod::lemma_div_pos_is_pos(x, pitch(p));
            assert(bar_rows_of(s, p, log2, k).0 == bar_rows_of(s, p, log2, k).1);
        }
    }
}

/// Every extreme of a range is a 16-bit sample, or the sentinel.
proof fn lemma_extremes_in_range(s: Seq<i16>, lo: int, hi: int)
    ensures
        i16::MIN <= range_min(s, lo, hi) <= i16::MAX,
        i16::MIN <= range_max(s, lo, hi) <= i16::MAX,
    decreases hi - lo,
{
    if hi > lo {
        lemma_extremes_in_range(s, lo, hi - 1);
    }
}

/// In `Full` layout no bar is upside down: the upper edge of every bar lies
/// at or above its lower edge.
pub proof fn lemma_full_bars_upright(s: Seq<i16>, p: GenerateParams, log2: Seq<u64>, k: int)
    requires
        p.wave_form_mode == WaveFormMode::Full,
        config_ok(p),
        log2_table_ok(log2),
        s.len() > 0,
        0 <= k < bar_count_of(p),
    ensures
        bar_rows_of(s, p, log2, k).0 <= bar_rows_of(s, p, log2, k).1,
{
    let b = bar_count_of(p);
    let n = s.len() as int;
    let lo = bar_start(k, n, b);
    let hi = bar_start(k + 1, n, b);
    lemma_bar_start_monotone(k, k + 1, n, b);
    lemma_bar_start_monotone(k + 1, b, n, b);
    lemma_bars_partition_samples(n, b, 0);
    if lo < hi {
        lemma_min_le_max(s, lo, hi);
        lemma_extremes_in_range(s, lo, hi);
        lemma_rows_ordered(p, log2, range_min(s, lo, hi), range_max(s, lo, hi));
    }
}

/// Drawing is deterministic: two waveforms of the same samples with the same
/// configuration and table have the same size and the same bytes.
pub proof fn lemma_waveform_deterministic(c1: Canvas, c2: Canvas, s: Seq<i16>, p: GenerateParams, log2: Seq<u64>)
    requires
        is_waveform(c1, s, p, log2),
        is_waveform(c2, s, p, log2),
    ensures
        canvas_pixels(c1).len() == canvas_pixels(c2).len(),
        forall|y: int| 0 <= y < p.image_height ==> (#[trigger] canvas_pixels(c1)[y]).len() == canvas_pixels(c2)[y].len(),
        forall|y: int, x: int|
            0 <= y < p.image_height && 0 <= x < p.image_width ==> (#[trigger] canvas_pixels(c1)[y][x])@
                == canvas_pixels(c2)[y][x]@,
{
    assert forall|y: int, x: int|
        0 <= y < p.image_height && 0 <= x < p.image_width implies (#[trigger] canvas_pixels(c1)[y][x])@
        == canvas_pixels(c2)[y][x]@ by {
        assert(canvas_pixels(c1)[y][x]@ == waveform_pixel(s, p, log2, x, y));
        assert(canvas_pixels(c2)[y][x]@ == waveform_pixel(s, p, log2, x, y));
    }
}

} // verus!
