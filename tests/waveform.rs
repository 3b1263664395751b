use waveform::{
    bar_count, bar_extremes, bar_rows, first_sample_of_bar, generate_waveform, scale_height,
    to_rgba_bytes, GenerateParams, Log2Table, RenderError, ScaleMode, WaveFormMode, LOG2_TABLE_LEN,
};

const WHITE: [u8; 4] = [255, 255, 255, 255];

fn log2_table() -> Log2Table {
    let mut values: Vec<u64> = Vec::with_capacity(LOG2_TABLE_LEN);
    values.push(0);
    for v in 1..LOG2_TABLE_LEN {
        values.push(((v as f64).log2() * 4294967296.0) as u64);
    }
    Log2Table::new(values).expect("a table of logarithms never decreases")
}

fn params(w: u32, h: u32, bw: u32, bp: u32, mode: WaveFormMode, scale: ScaleMode) -> GenerateParams {
    GenerateParams {
        image_width: w,
        image_height: h,
        bar_width: bw,
        bar_padding: bp,
        wave_form_mode: mode,
        scale_mode: scale,
        fill_color: WHITE,
    }
}

fn render_bytes(samples: &[i16], p: &GenerateParams) -> Vec<u8> {
    let c = generate_waveform(samples, p, &log2_table()).expect("a drawable configuration");
    to_rgba_bytes(&c, p.image_width, p.image_height)
}

fn pixel(bytes: &[u8], w: u32, x: u32, y: u32) -> [u8; 4] {
    let i = 4 * (y as usize * w as usize + x as usize);
    [bytes[i], bytes[i + 1], bytes[i + 2], bytes[i + 3]]
}

/// Rows of column `x` that hold the fill color.
fn painted_rows(bytes: &[u8], w: u32, h: u32, x: u32) -> Vec<u32> {
    (0..h).filter(|&y| pixel(bytes, w, x, y) == WHITE).collect()
}

#[test]
fn bar_count_of_wide_image() {
    let p = params(3200, 800, 20, 5, WaveFormMode::Half, ScaleMode::Linear);
    assert_eq!(bar_count(&p), 128);
    let p = params(3200, 800, 10, 5, WaveFormMode::Half, ScaleMode::Linear);
    assert_eq!(bar_count(&p), 213);
    let p = params(3, 10, 4, 0, WaveFormMode::Half, ScaleMode::Linear);
    assert_eq!(bar_count(&p), 0);
}

#[test]
fn buffer_has_configured_size() {
    for mode in [WaveFormMode::Half, WaveFormMode::Full, WaveFormMode::FullSymmetry] {
        let p = params(37, 11, 3, 2, mode, ScaleMode::Linear);
        let bytes = render_bytes(&[1, -5, 300, 7, -20000], &p);
        assert_eq!(bytes.len(), 4 * 37 * 11);
    }
}

#[test]
fn samples_partition_into_bars() {
    // 10 samples over 4 bars: bar k starts at ceil(k * 10 / 4)
    let starts: Vec<usize> = (0..=4).map(|k| first_sample_of_bar(k, 10, 4)).collect();
    assert_eq!(starts, vec![0, 3, 5, 8, 10]);
    // more bars than samples: some bars get none
    let starts: Vec<usize> = (0..=5).map(|k| first_sample_of_bar(k, 2, 5)).collect();
    assert_eq!(starts, vec![0, 1, 1, 2, 2, 2]);
    // sample i belongs to bar floor(i * b / n)
    let (n, b) = (7usize, 3u64);
    for i in 0..n {
        let k = (i as u64 * b / n as u64) as u64;
        assert!(first_sample_of_bar(k, n, b) <= i && i < first_sample_of_bar(k + 1, n, b));
    }
}

#[test]
fn extremes_of_a_range() {
    let s = [3i16, -7, 12, 0, 5];
    assert_eq!(bar_extremes(&s, 1, 4), (-7, 12));
    assert_eq!(bar_extremes(&s, 4, 5), (5, 5));
    assert_eq!(bar_extremes(&s, 2, 2), (i16::MAX, i16::MIN));
}

#[test]
fn bar_left_edges_step_by_pitch() {
    // three bars of width 2 with padding 3 on a 12-pixel image
    let p = params(12, 4, 2, 3, WaveFormMode::Half, ScaleMode::Linear);
    let bytes = render_bytes(&[32767, -32768, 32767, -32768, 32767, -32768], &p);
    let painted: Vec<u32> = (0..12).filter(|&x| !painted_rows(&bytes, 12, 4, x).is_empty()).collect();
    assert_eq!(painted, vec![0, 1, 5, 6, 10, 11]);
}

#[test]
fn silence_leaves_background() {
    for mode in [WaveFormMode::Half, WaveFormMode::Full, WaveFormMode::FullSymmetry] {
        for scale in [ScaleMode::Linear, ScaleMode::Logarithm] {
            let p = params(40, 30, 3, 1, mode, scale);
            let bytes = render_bytes(&[0; 25], &p);
            assert!(bytes.iter().all(|&b| b == 0));
        }
    }
}

#[test]
fn logarithm_of_silence_is_zero() {
    let t = log2_table();
    assert_eq!(scale_height(0, 800, 65535, ScaleMode::Logarithm, &t), 0);
    assert_eq!(scale_height(0, 400, 32768, ScaleMode::Logarithm, &t), 0);
    // magnitude one has logarithm zero as well
    assert_eq!(scale_height(1, 400, 32768, ScaleMode::Logarithm, &t), 0);
}

#[test]
fn scale_heights_exact() {
    let t = log2_table();
    assert_eq!(scale_height(32768, 100, 65535, ScaleMode::Linear, &t), 50);
    assert_eq!(scale_height(65535, 100, 65535, ScaleMode::Linear, &t), 100);
    assert_eq!(scale_height(8192, 50, 32768, ScaleMode::Linear, &t), 12);
    // log2(256) / log2(65535) of 100 pixels
    assert_eq!(scale_height(256, 100, 65535, ScaleMode::Logarithm, &t), 50);
    // log2(1024) / log2(32768) = 10 / 15 of 300 pixels
    assert_eq!(scale_height(1024, 300, 32768, ScaleMode::Logarithm, &t), 200);
    assert_eq!(scale_height(32768, 300, 32768, ScaleMode::Logarithm, &t), 300);
}

#[test]
fn full_bars_are_upright() {
    let t = log2_table();
    let p = params(1, 100, 1, 0, WaveFormMode::Full, ScaleMode::Linear);
    assert_eq!(bar_rows(&p, &t, -16384, 16384, false), (25, 75));
    assert_eq!(bar_rows(&p, &t, 8192, 16384, false), (25, 38));
    assert_eq!(bar_rows(&p, &t, -16384, -8192, false), (62, 75));
    assert_eq!(bar_rows(&p, &t, i16::MAX, i16::MIN, true), (0, 0));
    for (lo, hi) in [(-32768i16, 32767i16), (1, 2), (-3, -1), (0, 0), (-32768, -32768)] {
        for scale in [ScaleMode::Linear, ScaleMode::Logarithm] {
            let p = params(1, 101, 1, 0, WaveFormMode::Full, scale);
            let (top, bottom) = bar_rows(&p, &t, lo, hi, false);
            assert!(top <= bottom && bottom <= 101);
        }
    }
}

#[test]
fn layouts_place_bars() {
    let samples = [16384i16, -16384];
    let half = params(1, 100, 1, 0, WaveFormMode::Half, ScaleMode::Linear);
    let bytes = render_bytes(&samples, &half);
    assert_eq!(painted_rows(&bytes, 1, 100, 0), (50..100).collect::<Vec<u32>>());
    let sym = params(1, 100, 1, 0, WaveFormMode::FullSymmetry, ScaleMode::Linear);
    let bytes = render_bytes(&samples, &sym);
    assert_eq!(painted_rows(&bytes, 1, 100, 0), (25..75).collect::<Vec<u32>>());
    let full = params(1, 100, 1, 0, WaveFormMode::Full, ScaleMode::Linear);
    let bytes = render_bytes(&samples, &full);
    assert_eq!(painted_rows(&bytes, 1, 100, 0), (25..75).collect::<Vec<u32>>());
}

#[test]
fn extreme_samples_one_per_bar() {
    let samples = [32767i16, -32768];
    let p = params(2, 100, 1, 0, WaveFormMode::Half, ScaleMode::Linear);
    assert_eq!(bar_count(&p), 2);
    assert_eq!(first_sample_of_bar(1, 2, 2), 1);
    // a bar of one sample spans no amplitude, so it has no height
    let bytes = render_bytes(&samples, &p);
    assert!(painted_rows(&bytes, 2, 100, 0).is_empty());
    assert!(painted_rows(&bytes, 2, 100, 1).is_empty());
}

#[test]
fn extreme_samples_in_one_bar_fill_column() {
    let samples = [32767i16, -32768];
    let p = params(1, 100, 1, 0, WaveFormMode::Half, ScaleMode::Linear);
    let bytes = render_bytes(&samples, &p);
    assert_eq!(painted_rows(&bytes, 1, 100, 0), (0..100).collect::<Vec<u32>>());
    let p = params(1, 100, 1, 0, WaveFormMode::Half, ScaleMode::Logarithm);
    let bytes = render_bytes(&samples, &p);
    assert_eq!(painted_rows(&bytes, 1, 100, 0), (0..100).collect::<Vec<u32>>());
}

#[test]
fn fill_color_is_painted() {
    let mut p = params(1, 4, 1, 0, WaveFormMode::Half, ScaleMode::Linear);
    p.fill_color = [10, 20, 30, 40];
    let bytes = render_bytes(&[32767, -32768], &p);
    assert_eq!(bytes, vec![10, 20, 30, 40, 10, 20, 30, 40, 10, 20, 30, 40, 10, 20, 30, 40]);
}

#[test]
fn rendering_twice_is_identical() {
    let samples: Vec<i16> = (0..500).map(|i: i32| ((i * 7919) % 65536 - 32768) as i16).collect();
    for mode in [WaveFormMode::Half, WaveFormMode::Full, WaveFormMode::FullSymmetry] {
        for scale in [ScaleMode::Linear, ScaleMode::Logarithm] {
            let p = params(120, 60, 4, 2, mode, scale);
            assert_eq!(render_bytes(&samples, &p), render_bytes(&samples, &p));
        }
    }
}

#[test]
fn invalid_config_is_rejected() {
    let t = log2_table();
    let bad = [
        params(0, 10, 1, 1, WaveFormMode::Half, ScaleMode::Linear),
        params(10, 0, 1, 1, WaveFormMode::Half, ScaleMode::Linear),
        params(10, 10, 0, 0, WaveFormMode::Half, ScaleMode::Linear),
    ];
    for p in bad.iter() {
        assert_eq!(generate_waveform(&[1, 2], p, &t).err(), Some(RenderError::InvalidConfig));
        assert_eq!(generate_waveform(&[], p, &t).err(), Some(RenderError::InvalidConfig));
    }
}

#[test]
fn empty_samples_are_rejected() {
    let t = log2_table();
    let p = params(10, 10, 1, 1, WaveFormMode::Full, ScaleMode::Linear);
    assert_eq!(generate_waveform(&[], &p, &t).err(), Some(RenderError::EmptySamples));
}

#[test]
fn huge_image_is_rejected() {
    let t = log2_table();
    let p = params(u32::MAX, u32::MAX, 1, 1, WaveFormMode::Half, ScaleMode::Linear);
    assert_eq!(generate_waveform(&[1], &p, &t).err(), Some(RenderError::ImageTooLarge));
}

#[test]
fn log2_table_is_checked() {
    assert!(Log2Table::new(vec![0; 10]).is_none());
    let mut values: Vec<u64> = (0..LOG2_TABLE_LEN as u64).collect();
    assert!(Log2Table::new(values.clone()).is_some());
    values[0] = 99;
    assert!(Log2Table::new(values.clone()).is_some());
    values[500] = 0;
    assert!(Log2Table::new(values).is_none());
}
