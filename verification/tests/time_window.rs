use apodize::{blackman_iter, hamming_iter, hanning_iter};
use audeye::dsp::{
    hop_size, FrameRead, SidePadding, SidePaddingType, TimeWindowBatcher, Window, WindowType,
    COEFFICIENT_ERROR, HOP_ERROR, LOOP_DATA_ERROR, OVERLAP_ERROR, PADDING_HELP_TEXT, READ_ERROR,
    WINDOW_ERROR,
};
use audeye::utils::UNIT;

const WINDOW_SIZES: &[usize] = &[256, 512, 1024, 2048, 4096, 8192, 333, 10000, 984];

const CHANNELS: usize = 2;
const FRAMES: usize = 44100;

/// One second of a two-channel stream at 44.1 kHz: a deterministic noise.
fn stream() -> Vec<i32> {
    let mut state: u32 = 0x1234_5678;
    let mut samples = Vec::with_capacity(CHANNELS * FRAMES);
    for _ in 0..CHANNELS * FRAMES {
        state = state.wrapping_mul(1_664_525).wrapping_add(1_013_904_223);
        samples.push((state as i32) / 4);
    }
    samples
}

/// A ratio in parts per billion.
fn parts(ratio: f64) -> i64 {
    (ratio * 1e9).round() as i64
}

/// The coefficients of a cosine window, in parts per billion; the uniform
/// window needs none.
fn shape(window_type: WindowType, size: usize) -> Vec<u32> {
    let to_parts = |coefficient: f64| (coefficient * 1e9).round() as u32;
    match window_type {
        WindowType::Blackman => blackman_iter(size).map(to_parts).collect(),
        WindowType::Hamming => hamming_iter(size).map(to_parts).collect(),
        WindowType::Hanning => hanning_iter(size).map(to_parts).collect(),
        WindowType::Uniform => Vec::new(),
    }
}

fn window(window_type: WindowType, size: usize) -> Window {
    window_type.build_window(size, shape(window_type, size)).unwrap()
}

/// Fills like `pad_left`, after the check that a caller owes it.
fn checked_pad_left(padder: &SidePadding, content: &mut [i32], next_sample: i32, channel: usize) {
    if content.len() > padder.left_side_offset() {
        panic!();
    }
    padder.pad_left(content, next_sample, channel);
}

/// Fills like `pad_right`, after the check that a caller owes it.
fn checked_pad_right(padder: &SidePadding, content: &mut [i32], prev_sample: i32, channel: usize) {
    if content.len() > padder.right_side_offset() {
        panic!();
    }
    padder.pad_right(content, prev_sample, channel);
}

/// The frames of the stream that loop padding repeats: the first
/// `max_right` and the last `max_left`.
fn loop_data(samples: &[i32], max_left: usize, max_right: usize) -> (Vec<i32>, Vec<i32>) {
    let head = samples[..max_right * CHANNELS].to_vec();
    let tail = samples[(FRAMES - max_left) * CHANNELS..].to_vec();
    (head, tail)
}

fn padder(padding_type: SidePaddingType, max_left: usize, max_right: usize) -> SidePadding {
    let samples = stream();
    let (head, tail) = loop_data(&samples, max_left, max_right);
    SidePadding::new(padding_type, CHANNELS, max_left, max_right, &head, &tail).unwrap()
}

fn batcher(
    samples: &[i32],
    window_size: usize,
    overlap: f64,
    window_type: WindowType,
    side_padding: SidePaddingType,
) -> Result<TimeWindowBatcher, String> {
    let hop = hop_size(window_size, parts(overlap)).map_err(|err| err.message())?;
    let max_left = window_size - hop;
    let (head, tail) = match side_padding {
        SidePaddingType::Loop => loop_data(samples, max_left, window_size),
        _ => (Vec::new(), Vec::new()),
    };
    TimeWindowBatcher::new(
        FRAMES,
        CHANNELS,
        window_size,
        parts(overlap),
        window(window_type, window_size),
        side_padding,
        &head,
        &tail,
    )
    .map_err(|err| err.message())
}

fn read<'a>(samples: &'a [i32], request: FrameRead) -> &'a [i32] {
    &samples[request.start * CHANNELS..(request.start + request.frames) * CHANNELS]
}

#[test]
fn parse_default() {
    let _ = WindowType::parse(WindowType::default()).unwrap();
}

#[test]
fn parse_all() {
    for value in WindowType::possible_values() {
        WindowType::parse(value).unwrap();
    }
}

#[test]
fn parse_gives_the_type_of_each_name() {
    assert_eq!(WindowType::parse("hanning").unwrap(), WindowType::Hanning);
    assert_eq!(WindowType::parse("hamming").unwrap(), WindowType::Hamming);
    assert_eq!(WindowType::parse("blackman").unwrap(), WindowType::Blackman);
    assert_eq!(WindowType::parse("uniform").unwrap(), WindowType::Uniform);
    assert_eq!(WindowType::possible_values(), &["hamming", "hanning", "blackman", "uniform"]);
    assert_eq!(WindowType::default(), "hanning");
}

#[test]
fn parse_refuses_other_names() {
    for name in ["", "Hanning", "hannin", "hanningg", "zeros", "uniform "] {
        let err = WindowType::parse(name).unwrap_err();
        assert_eq!(err.message(), "Invalid window type");
    }
}

#[test]
fn correction_factors_in_hundredths() {
    assert_eq!(WindowType::Blackman.correction_factor(), 280);
    assert_eq!(WindowType::Hamming.correction_factor(), 185);
    assert_eq!(WindowType::Hanning.correction_factor(), 200);
    assert_eq!(WindowType::Uniform.correction_factor(), 100);
}

#[test]
fn build_window() {
    for value in WindowType::possible_values() {
        let wtype = WindowType::parse(value).unwrap();

        for wsize in WINDOW_SIZES {
            let window = window(wtype, *wsize);
            assert_eq!(window.len(), *wsize);

            for i in 0..window.len() {
                let sample = window.coefficient(i);
                assert!(sample <= UNIT as u32);
            }
        }
    }
}

#[test]
fn build_window_of_every_size() {
    for wtype in [
        WindowType::Blackman,
        WindowType::Hamming,
        WindowType::Hanning,
        WindowType::Uniform,
    ] {
        for wsize in [128usize, 256, 512, 1024, 2048, 4096, 8192, 666, 1333] {
            let window = window(wtype, wsize);
            assert_eq!(window.len(), wsize);
            assert!((0..wsize).all(|i| window.coefficient(i) <= UNIT as u32));
        }
    }
}

#[test]
fn uniform_window_is_one_everywhere() {
    let window = Window::uniform(5);
    assert_eq!(window.len(), 5);
    for i in 0..5 {
        assert_eq!(window.coefficient(i), 1_000_000_000);
    }
    assert_eq!(Window::uniform(0).len(), 0);
}

#[test]
fn window_that_is_no_window_of_the_size_is_refused() {
    let cosine = WindowType::Hanning;
    assert_eq!(cosine.build_window(4, vec![0; 3]).err().unwrap().message(), WINDOW_ERROR);
    assert_eq!(cosine.build_window(4, vec![0; 5]).err().unwrap().message(), WINDOW_ERROR);
    assert_eq!(
        cosine.build_window(2, vec![0, 1_000_000_001]).err().unwrap().message(),
        COEFFICIENT_ERROR
    );
    let window = cosine.build_window(3, vec![0, 1_000_000_000, 5]).unwrap();
    assert_eq!((window.len(), window.coefficient(2)), (3, 5));
    // The uniform window needs no shape and reads none.
    let uniform = WindowType::Uniform.build_window(3, vec![9, 9_999_999_999u64 as u32]).unwrap();
    assert_eq!(uniform.len(), 3);
    assert!((0..3).all(|i| uniform.coefficient(i) == 1_000_000_000));
}

#[test]
fn coefficient_above_one_is_refused() {
    let err = Window::from_coefficients(vec![0, 1_000_000_000, 1_000_000_001]).err().unwrap();
    assert_eq!(err.message(), COEFFICIENT_ERROR);
    assert!(Window::from_coefficients(vec![0, 1_000_000_000, 999_999_999]).is_ok());
    assert!(Window::from_coefficients(Vec::new()).is_ok());
}

#[test]
fn window_weighs_toward_zero() {
    let window = Window::from_coefficients(vec![500_000_000, 0, 1_000_000_000, 333_333_333]).unwrap();
    assert_eq!(window.weigh(7, 0), 3);
    assert_eq!(window.weigh(-7, 0), -3);
    assert_eq!(window.weigh(i32::MIN, 0), -1_073_741_824);
    assert_eq!(window.weigh(i32::MAX, 1), 0);
    assert_eq!(window.weigh(i32::MIN, 2), i32::MIN);
    assert_eq!(window.weigh(i32::MAX, 2), i32::MAX);
    assert_eq!(window.weigh(10, 3), 3);
    assert_eq!(window.weigh(-10, 3), -3);

    let mut frame = [7, i32::MAX, -5, -10];
    window.apply(&mut frame);
    assert_eq!(frame, [3, 0, -5, -3]);
}

#[test]
fn padding_types_by_name() {
    assert_eq!(SidePaddingType::parse("zeros").unwrap(), SidePaddingType::Zeros);
    assert_eq!(SidePaddingType::parse("ramp").unwrap(), SidePaddingType::SmoothRamp);
    assert_eq!(SidePaddingType::parse("loop").unwrap(), SidePaddingType::Loop);
    assert_eq!(SidePaddingType::possible_values(), &["zeros", "ramp", "loop"]);
    assert_eq!(SidePaddingType::default(), "zeros");
    for name in ["", "zero", "Loop", "ramp ", "hanning"] {
        let err = SidePaddingType::parse(name).unwrap_err();
        assert_eq!(err.message(), "Invalid side padding type");
    }
    assert!(PADDING_HELP_TEXT.contains("\tloop : loop the end to the beginning and vice-versa\n"));
}

#[test]
fn default() {
    const PADDING_LEFT: usize = 1024;
    const WINDOW_SIZE: usize = 4096;

    let mut data = vec![0i32; WINDOW_SIZE];

    let default_type = SidePaddingType::parse(SidePaddingType::default()).unwrap();
    let padder = padder(default_type, PADDING_LEFT, WINDOW_SIZE);

    for i in 0..CHANNELS {
        checked_pad_left(&padder, &mut data[..PADDING_LEFT / 2], 1, i);
        checked_pad_right(&padder, &mut data[..WINDOW_SIZE / 2], 1, i);
    }
}

#[test]
fn possible_values() {
    const PADDING_LEFT: usize = 1024;
    const WINDOW_SIZE: usize = 4096;

    let mut data = vec![0i32; WINDOW_SIZE];

    for padding_type_str in SidePaddingType::possible_values() {
        let padding_type = SidePaddingType::parse(padding_type_str).unwrap();
        let padder = padder(padding_type, PADDING_LEFT, WINDOW_SIZE);

        for i in 0..CHANNELS {
            checked_pad_left(&padder, &mut data[..PADDING_LEFT / 2], 1, i);
            checked_pad_right(&padder, &mut data[..WINDOW_SIZE / 2], 1, i);
        }
    }
}

#[test]
#[should_panic]
fn padding_left_oversize_zeros() {
    const PADDING_LEFT: usize = 1024;
    const PADDING_RIGHT: usize = 4096;

    let mut data = vec![0i32; PADDING_LEFT * 2];

    let padder = padder(SidePaddingType::Zeros, PADDING_LEFT, PADDING_RIGHT);
    checked_pad_left(&padder, &mut data[..PADDING_LEFT * 2], 1, 0);
}

#[test]
#[should_panic]
fn padding_left_oversize_loop() {
    const PADDING_LEFT: usize = 1024;
    const PADDING_RIGHT: usize = 4096;

    let mut data = vec![0i32; PADDING_LEFT * 2];

    let padder = padder(SidePaddingType::Loop, PADDING_LEFT, PADDING_RIGHT);
    checked_pad_left(&padder, &mut data[..PADDING_LEFT * 2], 1, 0);
}

#[test]
#[should_panic]
fn padding_left_oversize_ramp() {
    const PADDING_LEFT: usize = 1024;
    const PADDING_RIGHT: usize = 4096;

    let mut data = vec![0i32; PADDING_LEFT * 2];

    let padder = padder(SidePaddingType::SmoothRamp, PADDING_LEFT, PADDING_RIGHT);
    checked_pad_left(&padder, &mut data[..PADDING_LEFT * 2], 1, 0);
}

#[test]
#[should_panic]
fn padding_right_oversize_zeros() {
    const PADDING_LEFT: usize = 4096;
    const PADDING_RIGHT: usize = 4096;

    let mut data = vec![0i32; PADDING_RIGHT * 2];

    let padder = padder(SidePaddingType::Zeros, PADDING_LEFT, PADDING_RIGHT);
    checked_pad_right(&padder, &mut data[..PADDING_RIGHT * 2], 1, 0);
}

#[test]
#[should_panic]
fn padding_right_oversize_loop() {
    const PADDING_LEFT: usize = 4096;
    const PADDING_RIGHT: usize = 4096;

    let mut data = vec![0i32; PADDING_RIGHT * 2];

    let padder = padder(SidePaddingType::Loop, PADDING_LEFT, PADDING_RIGHT);
    checked_pad_right(&padder, &mut data[..PADDING_RIGHT * 2], 1, 0);
}

#[test]
#[should_panic]
fn padding_right_oversize_ramp() {
    const PADDING_LEFT: usize = 4096;
    const PADDING_RIGHT: usize = 4096;

    let mut data = vec![0i32; PADDING_RIGHT * 2];

    let padder = padder(SidePaddingType::SmoothRamp, PADDING_LEFT, PADDING_RIGHT);
    checked_pad_right(&padder, &mut data[..PADDING_RIGHT * 2], 1, 0);
}

#[test]
fn fill_of_the_whole_capacity_is_made() {
    for padding_type in [SidePaddingType::Zeros, SidePaddingType::SmoothRamp, SidePaddingType::Loop] {
        let padder = padder(padding_type, 64, 128);
        assert_eq!(padder.left_side_offset(), 64);
        assert_eq!(padder.right_side_offset(), 128);
        assert_eq!(padder.channels(), CHANNELS);

        let mut left = vec![7i32; 64];
        padder.pad_left(&mut left, 0, 1);
        let mut right = vec![7i32; 128];
        padder.pad_right(&mut right, 0, 0);
        if padding_type != SidePaddingType::Loop {
            assert_eq!(left, vec![0i32; 64]);
            assert_eq!(right, vec![0i32; 128]);
        }
    }
}

#[test]
fn zeros_fill_with_zeros() {
    let padder = padder(SidePaddingType::Zeros, 64, 128);
    let mut left = vec![7i32; 10];
    padder.pad_left(&mut left, 1000, 0);
    assert_eq!(left, vec![0i32; 10]);
    let mut right = vec![7i32; 128];
    padder.pad_right(&mut right, -1000, 1);
    assert_eq!(right, vec![0i32; 128]);
    let mut nothing: Vec<i32> = Vec::new();
    padder.pad_left(&mut nothing, 5, 0);
    padder.pad_right(&mut nothing, 5, 0);
}

#[test]
fn ramp_rises_toward_the_next_sample() {
    // A ramp of 256 / 64 = 4 samples.
    let padder = padder(SidePaddingType::SmoothRamp, 256, 512);
    let mut left = vec![7i32; 6];
    padder.pad_left(&mut left, 1000, 0);
    assert_eq!(left, vec![0, 0, 0, 250, 500, 750]);
    padder.pad_left(&mut left, -1001, 1);
    assert_eq!(left, vec![0, 0, 0, -250, -500, -750]);
    padder.pad_left(&mut left, i32::MIN, 1);
    assert_eq!(left, vec![0, 0, 0, -536_870_912, -1_073_741_824, -1_610_612_736]);

    // A fill shorter than the ramp is all ramp.
    let mut short = vec![7i32; 3];
    padder.pad_left(&mut short, 10, 0);
    assert_eq!(short, vec![0, 3, 6]);
}

#[test]
fn ramp_falls_from_the_previous_sample() {
    let padder = padder(SidePaddingType::SmoothRamp, 256, 512);
    let mut right = vec![7i32; 6];
    padder.pad_right(&mut right, 1000, 0);
    assert_eq!(right, vec![750, 500, 250, 0, 0, 0]);
    padder.pad_right(&mut right, -1001, 1);
    assert_eq!(right, vec![-750, -500, -250, 0, 0, 0]);
    padder.pad_right(&mut right, i32::MAX, 1);
    assert_eq!(right, vec![1_610_612_735, 1_073_741_823, 536_870_911, 0, 0, 0]);

    let mut short = vec![7i32; 3];
    padder.pad_right(&mut short, 10, 0);
    assert_eq!(short, vec![6, 3, 0]);
}

#[test]
fn ramp_of_a_small_side_is_all_zeros() {
    // 63 / 64 = 0 samples of ramp.
    let padder = padder(SidePaddingType::SmoothRamp, 63, 512);
    let mut left = vec![7i32; 6];
    padder.pad_left(&mut left, 1000, 0);
    assert_eq!(left, vec![0i32; 6]);
    let mut right = vec![7i32; 6];
    padder.pad_right(&mut right, 1000, 0);
    assert_eq!(right, vec![0i32; 6]);
}

#[test]
fn loop_repeats_the_other_end() {
    let samples = stream();
    let padder = padder(SidePaddingType::Loop, 8, 16);
    for channel in 0..CHANNELS {
        // Before the stream come its last frames.
        let mut left = vec![7i32; 3];
        padder.pad_left(&mut left, 1000, channel);
        let expected: Vec<i32> =
            (FRAMES - 3..FRAMES).map(|f| samples[f * CHANNELS + channel]).collect();
        assert_eq!(left, expected);

        // After the stream come its first frames.
        let mut right = vec![7i32; 5];
        padder.pad_right(&mut right, 1000, channel);
        let expected: Vec<i32> = (0..5).map(|f| samples[f * CHANNELS + channel]).collect();
        assert_eq!(right, expected);
    }
}

#[test]
fn loop_padding_needs_the_frames_of_the_stream() {
    let head = vec![0i32; 16 * CHANNELS];
    let tail = vec![0i32; 8 * CHANNELS];
    assert!(SidePadding::new(SidePaddingType::Loop, CHANNELS, 8, 16, &head, &tail).is_ok());
    for (head, tail) in [(&head[1..], &tail[..]), (&head[..], &tail[1..]), (&tail[..], &head[..])] {
        let err = SidePadding::new(SidePaddingType::Loop, CHANNELS, 8, 16, head, tail).err().unwrap();
        assert_eq!(err.message(), LOOP_DATA_ERROR);
    }
    assert!(SidePadding::new(SidePaddingType::Zeros, CHANNELS, 8, 16, &[], &[]).is_ok());
    assert!(SidePadding::new(SidePaddingType::SmoothRamp, CHANNELS, 8, 16, &head, &[]).is_ok());
    assert!(SidePadding::new(SidePaddingType::Loop, 0, 8, 16, &[], &[]).is_ok());
    assert!(
        SidePadding::new(SidePaddingType::Loop, usize::MAX, 8, usize::MAX, &[], &[]).is_err()
    );
}

#[test]
fn hop_is_the_part_that_the_overlap_leaves() {
    assert_eq!(hop_size(4096, parts(0.75)).ok(), Some(1024));
    assert_eq!(hop_size(4096, parts(0.5)).ok(), Some(2048));
    assert_eq!(hop_size(128, parts(0.95)).ok(), Some(6));
    assert_eq!(hop_size(666, parts(0.1)).ok(), Some(599));
    assert_eq!(hop_size(1333, parts(0.75)).ok(), Some(333));
    assert_eq!(hop_size(1, parts(0.5)).ok(), Some(0));
    assert_eq!(hop_size(usize::MAX, 1).ok(), Some(usize::MAX - 18_446_744_074));
    assert_eq!(hop_size(usize::MAX, 999_999_999).ok(), Some(18_446_744_073));
    for overlap in [0, -1, parts(-1.0), UNIT as i64, parts(1.5), i64::MIN, i64::MAX] {
        assert_eq!(hop_size(4096, overlap).err().unwrap().message(), OVERLAP_ERROR);
    }
}

#[test]
fn time_window_build() {
    let valid_window_size = &[128usize, 256, 512, 1024, 2048, 4096, 8192, 666, 1333];
    let valid_overlaps = &[0.1f64, 0.25f64, 0.5f64, 0.75f64, 0.95f64];
    let samples = stream();

    for window_size in valid_window_size {
        for overlap in valid_overlaps {
            batcher(&samples, *window_size, *overlap, WindowType::Hanning, SidePaddingType::Zeros)
                .unwrap();
        }
    }
}

#[test]
#[should_panic]
fn negative_overlap() {
    const WINDOW_SIZE: usize = 2048;
    const OVERLAP: f64 = -1f64;
    let samples = stream();

    TimeWindowBatcher::new(
        FRAMES,
        CHANNELS,
        WINDOW_SIZE,
        parts(OVERLAP),
        window(WindowType::Hanning, WINDOW_SIZE),
        SidePaddingType::Zeros,
        &samples[..0],
        &samples[..0],
    )
    .unwrap();
}

#[test]
#[should_panic]
fn overlap_greater_than_one() {
    const WINDOW_SIZE: usize = 2048;
    const OVERLAP: f64 = 1.5f64;
    let samples = stream();

    TimeWindowBatcher::new(
        FRAMES,
        CHANNELS,
        WINDOW_SIZE,
        parts(OVERLAP),
        window(WindowType::Hanning, WINDOW_SIZE),
        SidePaddingType::Zeros,
        &samples[..0],
        &samples[..0],
    )
    .unwrap();
}

#[test]
fn overlap_outside_of_the_open_interval_is_refused_for_every_window_size() {
    for window_size in [128usize, 256, 512, 1024, 2048, 4096, 8192, 666, 1333] {
        for overlap in [-1f64, 1.5f64, 0f64, 1f64] {
            let err = TimeWindowBatcher::new(
                FRAMES,
                CHANNELS,
                window_size,
                parts(overlap),
                window(WindowType::Hanning, window_size),
                SidePaddingType::Zeros,
                &[],
                &[],
            )
            .err()
            .unwrap();
            assert_eq!(err.message(), OVERLAP_ERROR);
            assert_eq!(err.message(), "Overlap values should be contained within ]0:1[");
        }
    }
}

#[test]
fn batcher_refuses_what_it_cannot_cut() {
    let build = |frames: usize, window_size: usize, overlap: f64, window: Window, head: &[i32]| {
        TimeWindowBatcher::new(
            frames,
            CHANNELS,
            window_size,
            parts(overlap),
            window,
            SidePaddingType::Loop,
            head,
            &[],
        )
        .err()
        .map(|err| err.message())
    };
    // The frames would not advance.
    assert_eq!(build(100, 1, 0.5, Window::uniform(1), &[]), Some(HOP_ERROR.to_string()));
    assert_eq!(build(100, 0, 0.5, Window::uniform(0), &[]), Some(HOP_ERROR.to_string()));
    // The window does not fit the frame.
    assert_eq!(build(100, 8, 0.5, Window::uniform(7), &[]), Some(WINDOW_ERROR.to_string()));
    // Loop padding without its frames.
    assert_eq!(build(24, 64, 0.75, Window::uniform(64), &[]), Some(LOOP_DATA_ERROR.to_string()));
    // A stream shorter than the margin of a frame is cut all the same, and an
    // empty stream has no frame.
    for frames in [0usize, 1, 23, 100] {
        let batcher = TimeWindowBatcher::new(
            frames,
            CHANNELS,
            64,
            parts(0.75),
            Window::uniform(64),
            SidePaddingType::Loop,
            &[0; 64 * CHANNELS],
            &[0; 48 * CHANNELS],
        )
        .ok()
        .unwrap();
        assert_eq!(batcher.get_num_bands(), (frames + 15) / 16);
    }
}

#[test]
fn check_content() {
    let valid_window_size = &[128usize, 256, 512, 1024, 2048, 4096, 8192, 666, 1333];
    let valid_overlaps = &[0.1f64, 0.25f64, 0.5f64, 0.75f64, 0.95f64];
    let samples = stream();

    for window_size in valid_window_size {
        for overlap in valid_overlaps {
            let frames = FRAMES as u64;
            let channels = CHANNELS;

            let band_size = (*window_size as f64 * (1f64 - *overlap)) as i32;
            let expected_num_batch = usize::try_from(frames / band_size as u64).unwrap();

            let mut batcher = batcher(
                &samples,
                *window_size,
                *overlap,
                WindowType::Hanning,
                SidePaddingType::Zeros,
            )
            .unwrap();
            let num_batch = batcher.get_num_bands();

            assert!(expected_num_batch == num_batch || expected_num_batch + 1 == num_batch);

            let mut count = 0usize;

            loop {
                let request = batcher.next_read();
                if request.is_none() {
                    assert_eq!(batcher.get_next_batch(&[]).ok(), Some(false));
                    break;
                }
                let produced = batcher.get_next_batch(read(&samples, request.unwrap()));
                assert_eq!(produced.ok(), Some(true));
                let batch = batcher.batch();

                assert_eq!(batch.len(), channels);

                for chan in batch {
                    assert_eq!(chan.len(), *window_size);
                }

                count += 1;
            }

            assert_eq!(count, num_batch);
        }
    }
}

#[test]
fn band_count_is_the_rounded_up_quotient() {
    let samples = stream();
    for (window_size, overlap, bands) in [
        (4096usize, 0.75f64, 44usize),
        (4096, 0.5, 22),
        (4096, 0.25, 15),
        (2048, 0.75, 87),
        (1024, 0.5, 87),
        (512, 0.25, 115),
        (2, 0.5, 44100),
        (100, 0.5, 882),
    ] {
        let batcher =
            batcher(&samples, window_size, overlap, WindowType::Uniform, SidePaddingType::Zeros)
                .unwrap();
        assert_eq!(batcher.get_num_bands(), bands);
        assert_eq!(batcher.channels(), CHANNELS);
    }
}

#[test]
fn frames_read_where_the_stream_has_them() {
    // Frames of 8 samples that advance by 2: a margin of 3.
    let samples: Vec<i32> = (0..2 * 11).map(|i| 1000 + i).collect();
    let mut batcher = TimeWindowBatcher::new(
        11,
        CHANNELS,
        8,
        parts(0.75),
        Window::uniform(8),
        SidePaddingType::Zeros,
        &[],
        &[],
    )
    .unwrap();
    assert_eq!(batcher.get_num_bands(), 6);
    let expected = [(0usize, 5usize), (2, 7), (4, 7), (6, 5), (8, 3), (10, 1)];
    for (start, frames) in expected {
        let request = batcher.next_read().unwrap();
        assert_eq!(request, FrameRead { start, frames });
        let interleaved = &samples[start * 2..(start + frames) * 2];
        assert_eq!(batcher.get_next_batch(interleaved).ok(), Some(true));
    }
    assert_eq!(batcher.next_read(), None);
    assert_eq!(batcher.get_next_batch(&samples).ok(), Some(false));
}

#[test]
fn frame_is_padded_split_and_weighed() {
    // Frames of 8 samples that advance by 2: a margin of 3.
    let samples: Vec<i32> = (0..2 * 11).map(|i| 1000 + i).collect();
    let window =
        Window::from_coefficients(vec![UNIT as u32, UNIT as u32 / 2, UNIT as u32, 0, UNIT as u32 / 4, UNIT as u32, UNIT as u32, UNIT as u32])
            .unwrap();
    let mut batcher = TimeWindowBatcher::new(
        11,
        CHANNELS,
        8,
        parts(0.75),
        window,
        SidePaddingType::Loop,
        &samples[..8 * 2],
        &samples[(11 - 6) * 2..],
    )
    .unwrap();

    // The first frame: the last 3 frames of the stream, then its first 5.
    assert_eq!(batcher.get_next_batch(&samples[..5 * 2]).ok(), Some(true));
    assert_eq!(batcher.batch()[0], vec![1016, 509, 1020, 0, 250, 1004, 1006, 1008]);
    assert_eq!(batcher.batch()[1], vec![1017, 509, 1021, 0, 250, 1005, 1007, 1009]);

    // The second frame: the last frame of the stream, then 7 from frame 2 on.
    assert_eq!(batcher.get_next_batch(&samples[2 * 2..9 * 2]).ok(), Some(true));
    assert_eq!(batcher.batch()[0], vec![1020, 502, 1006, 0, 252, 1012, 1014, 1016]);

    // The third frame needs no padding on the left and one sample on the right.
    assert_eq!(batcher.next_read(), Some(FrameRead { start: 4, frames: 7 }));
    assert_eq!(batcher.get_next_batch(&samples[4 * 2..11 * 2]).ok(), Some(true));
    assert_eq!(batcher.batch()[0], vec![1008, 505, 1012, 0, 254, 1018, 1020, 1000]);
    assert_eq!(batcher.batch()[1], vec![1009, 505, 1013, 0, 254, 1019, 1021, 1001]);

    // The last frame holds one frame of the stream and then its first 7.
    for start in [6usize, 8] {
        let frames = batcher.next_read().unwrap().frames;
        batcher.get_next_batch(&samples[start * 2..(start + frames) * 2]).unwrap();
    }
    assert_eq!(batcher.get_next_batch(&samples[10 * 2..]).ok(), Some(true));
    assert_eq!(batcher.batch()[1], vec![1021, 500, 1003, 0, 251, 1009, 1011, 1013]);
}

#[test]
fn ramp_padding_meets_the_real_samples() {
    // Frames of 512 samples that advance by 128: a margin of 192, and ramps
    // of 6 samples, the 64th part of the 384 samples that two frames share.
    let frames = 600usize;
    let samples: Vec<i32> = (0..frames).map(|f| 9000 + f as i32).collect();
    let mut batcher = TimeWindowBatcher::new(
        frames,
        1,
        512,
        parts(0.75),
        Window::uniform(512),
        SidePaddingType::SmoothRamp,
        &[],
        &[],
    )
    .unwrap();
    assert_eq!(batcher.next_read(), Some(FrameRead { start: 0, frames: 320 }));
    batcher.get_next_batch(&samples[..320]).unwrap();
    let first = &batcher.batch()[0];
    assert_eq!(first[..186], vec![0; 186][..]);
    assert_eq!(first[186..195], [0, 1500, 3000, 4500, 6000, 7500, 9000, 9001, 9002]);

    for _ in 1..4 {
        let request = batcher.next_read().unwrap();
        batcher.get_next_batch(&samples[request.start..request.start + request.frames]).unwrap();
    }
    // The last frame starts at 512 and holds 88 frames of the stream.
    assert_eq!(batcher.next_read(), Some(FrameRead { start: 512, frames: 88 }));
    batcher.get_next_batch(&samples[512..]).unwrap();
    let last = &batcher.batch()[0];
    assert_eq!(last[86..96], [9598, 9599, 7999, 6399, 4799, 3199, 1599, 0, 0, 0]);
    assert_eq!(last[96..], vec![0; 416][..]);
    assert_eq!(batcher.next_read(), None);
}

#[test]
fn samples_that_are_not_the_frames_asked_for_are_refused() {
    let samples: Vec<i32> = (0..2 * 11).map(|i| 1000 + i).collect();
    let mut batcher = TimeWindowBatcher::new(
        11,
        CHANNELS,
        8,
        parts(0.75),
        Window::uniform(8),
        SidePaddingType::Zeros,
        &[],
        &[],
    )
    .unwrap();
    for wrong in [&samples[..0], &samples[..9], &samples[..11], &samples[..]] {
        let err = batcher.get_next_batch(wrong).err().unwrap();
        assert_eq!(err.message(), READ_ERROR);
        assert_eq!(batcher.next_read(), Some(FrameRead { start: 0, frames: 5 }));
        assert_eq!(batcher.batch()[0], vec![0; 8]);
    }
    assert_eq!(batcher.get_next_batch(&samples[..10]).ok(), Some(true));
    assert_eq!(batcher.next_read(), Some(FrameRead { start: 2, frames: 7 }));
}

#[test]
fn left_side_holds_what_two_frames_share() {
    let samples = stream();
    for (window_size, overlap, hop) in
        [(4096usize, 0.75f64, 1024usize), (4096, 0.5, 2048), (2048, 0.25, 1536), (666, 0.1, 599)]
    {
        for padding_type in
            [SidePaddingType::Zeros, SidePaddingType::SmoothRamp, SidePaddingType::Loop]
        {
            let batcher =
                batcher(&samples, window_size, overlap, WindowType::Uniform, padding_type).unwrap();
            assert_eq!(batcher.side_padding().left_side_offset(), window_size - hop);
            assert_eq!(batcher.side_padding().right_side_offset(), window_size);
            assert_eq!(batcher.side_padding().channels(), CHANNELS);
        }
    }
}

#[test]
fn every_call_gives_a_frame_until_none_is_left() {
    let samples: Vec<i32> = vec![125, 250, 375, 500, 625, 750, 875, 1000];
    let mut batcher = TimeWindowBatcher::new(
        8,
        1,
        4,
        parts(0.5),
        Window::uniform(4),
        SidePaddingType::Zeros,
        &[],
        &[],
    )
    .unwrap();
    assert_eq!(batcher.get_num_bands(), 4);
    let expected = [[0, 125, 250, 375], [375, 500, 625, 750], [625, 750, 875, 1000], [875, 1000, 0, 0]];
    for frame in expected {
        let request = batcher.next_read().unwrap();
        let interleaved = &samples[request.start..request.start + request.frames];
        assert_eq!(batcher.get_next_batch(interleaved).ok(), Some(true));
        assert_eq!(batcher.batch().len(), 1);
        assert_eq!(batcher.batch()[0], frame);
        assert_eq!(batcher.get_num_bands(), 4);
    }
    for _ in 0..3 {
        assert_eq!(batcher.next_read(), None);
        assert_eq!(batcher.get_next_batch(&[]).ok(), Some(false));
        assert_eq!(batcher.batch()[0], [875, 1000, 0, 0]);
    }
}

#[test]
fn frame_inside_the_stream_is_the_stream_under_the_window() {
    let samples = stream();
    let window_size = 512usize;
    let coefficients = shape(WindowType::Hanning, window_size);
    let mut batcher =
        batcher(&samples, window_size, 0.75, WindowType::Hanning, SidePaddingType::SmoothRamp)
            .unwrap();
    for band in 0..20usize {
        let request = batcher.next_read().unwrap();
        assert_eq!(request.start, band * 128);
        batcher.get_next_batch(read(&samples, request)).unwrap();
        if band * 128 >= window_size - 128 {
            assert_eq!(request.frames, window_size);
            for channel in 0..CHANNELS {
                for i in 0..window_size {
                    let sample = samples[(band * 128 + i) * CHANNELS + channel] as i64;
                    let weighed = sample * coefficients[i] as i64 / 1_000_000_000;
                    assert_eq!(batcher.batch()[channel][i] as i64, weighed);
                }
            }
        }
    }
}

#[test]
fn stream_shorter_than_a_frame_keeps_its_samples() {
    // 100 frames for frames of 4096 samples that advance by 1024.
    let samples: Vec<i32> = (1..=100).collect();
    let mut batcher = TimeWindowBatcher::new(
        100,
        1,
        4096,
        parts(0.75),
        Window::uniform(4096),
        SidePaddingType::Zeros,
        &[],
        &[],
    )
    .unwrap();
    assert_eq!(batcher.get_num_bands(), 1);
    assert_eq!(batcher.next_read(), Some(FrameRead { start: 0, frames: 100 }));
    assert_eq!(batcher.get_next_batch(&samples).ok(), Some(true));
    let frame = &batcher.batch()[0];
    assert_eq!(frame[..1536], vec![0; 1536][..]);
    assert_eq!(frame[1536..1636], samples[..]);
    assert_eq!(frame[1636..], vec![0; 2460][..]);
    assert_eq!(batcher.next_read(), None);

    // 3 frames for frames of 4 samples that advance by 2: a margin of 1.
    let mut small = TimeWindowBatcher::new(
        3,
        1,
        4,
        parts(0.5),
        Window::uniform(4),
        SidePaddingType::Zeros,
        &[],
        &[],
    )
    .unwrap();
    assert_eq!(small.get_num_bands(), 2);
    assert_eq!(small.next_read(), Some(FrameRead { start: 0, frames: 3 }));
    small.get_next_batch(&[7, 8, 9]).unwrap();
    assert_eq!(small.batch()[0], [0, 7, 8, 9]);
    assert_eq!(small.next_read(), Some(FrameRead { start: 2, frames: 1 }));
    small.get_next_batch(&[9]).unwrap();
    assert_eq!(small.batch()[0], [9, 0, 0, 0]);
}
