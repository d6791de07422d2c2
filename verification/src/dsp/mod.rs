//! The transforms and the job that runs them.

pub mod batcher;
pub mod data;
pub mod normalization;
pub mod spectrogram;
pub mod time_window;
pub mod waveform;

pub use batcher::{
    hop_size, FrameRead, TimeWindowBatcher, HOP_ERROR, OVERLAP_ERROR, READ_ERROR,
};
pub use data::{next_worker_state, AsyncDspData, AsyncDspDataState, DspErr, JobAction};
pub use normalization::{
    compute_norm, magnitude_of, Norm, DIVISOR_ERROR, EPSILON_DENOMINATOR,
};
pub use spectrogram::{
    Palette, Spectrogram, SpectrogramParameters, DB_ERROR, PALETTE_ERROR, SIZE_ERROR,
};
pub use time_window::{
    SidePadding, SidePaddingType, SidePaddingTypeParseError, Window,
    WindowType, WindowTypeParseError, COEFFICIENT_ERROR, LOOP_DATA_ERROR, PADDING_HELP_TEXT,
    WINDOW_ERROR,
};
pub use waveform::{
    compute_point, isqrt, Waveform, WaveformParameters, WaveformPoint, BLOCK_SIZE,
    EMPTY_READ_ERROR, LONG_READ_ERROR,
};
