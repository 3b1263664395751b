pub mod canvas;
pub mod laws;
pub mod render;
pub mod scale;

pub use canvas::{to_rgba_bytes, Canvas};
pub use render::{
    bar_count, bar_extremes, bar_rows, first_sample_of_bar, generate_waveform, GenerateParams,
    RenderError, WaveFormMode,
};
pub use scale::{scale_height, Log2Table, ScaleMode, LOG2_TABLE_LEN};
