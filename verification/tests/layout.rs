use audio_spectrum::layout::SpectrumLayout;
use audio_spectrum::{DISPLAY_CUTOFF_HZ, DISPLAY_STRIDE, FFT_SIZE, SAMPLE_RATE};

fn reference() -> SpectrumLayout {
    SpectrumLayout::new(FFT_SIZE, SAMPLE_RATE)
}

#[test]
fn reference_parameters() {
    assert_eq!(FFT_SIZE, 1024);
    assert_eq!(SAMPLE_RATE, 44100);
    assert_eq!(DISPLAY_CUTOFF_HZ, 2000);
    assert_eq!(DISPLAY_STRIDE, 4);
    let layout = reference();
    assert_eq!(layout.fft_size(), 1024);
    assert_eq!(layout.sample_rate(), 44100);
    assert_eq!(layout.bin_count(), 512);
}

#[test]
fn bin_zero_is_zero_hertz() {
    assert_eq!(reference().label(0), 0);
}

#[test]
fn labels_of_the_reference_layout() {
    let layout = reference();
    assert_eq!(layout.label(1), 43);
    assert_eq!(layout.label(4), 172);
    assert_eq!(layout.label(8), 345);
    assert_eq!(layout.label(44), 1895);
    assert_eq!(layout.label(46), 1981);
    assert_eq!(layout.label(47), 2024);
    assert_eq!(layout.label(511), 22007);
}

#[test]
fn cutoff_boundary() {
    let layout = reference();
    assert!(layout.is_below_cutoff(0));
    assert!(layout.is_below_cutoff(46));
    assert!(!layout.is_below_cutoff(47));
    assert!(!layout.is_below_cutoff(511));
}

#[test]
fn cutoff_is_strict() {
    // Bin 2 of 8 samples at 8000 Hz sits at exactly 2000 Hz.
    let layout = SpectrumLayout::new(8, 8000);
    assert!(layout.is_below_cutoff(1));
    assert!(!layout.is_below_cutoff(2));
    assert_eq!(layout.label(2), 2000);
    let layout = SpectrumLayout::new(16, 8000);
    assert!(layout.is_below_cutoff(3));
    assert!(!layout.is_below_cutoff(4));
    assert!(!layout.is_displayed(4));
}

#[test]
fn only_every_fourth_bin_is_displayed() {
    let layout = reference();
    assert!(layout.is_displayed(0));
    assert!(!layout.is_displayed(1));
    assert!(!layout.is_displayed(2));
    assert!(!layout.is_displayed(3));
    assert!(layout.is_displayed(4));
    assert!(layout.is_displayed(44));
    assert!(!layout.is_displayed(45));
    assert!(!layout.is_displayed(46));
    assert!(!layout.is_displayed(48));
}

#[test]
fn bins_outside_the_single_sided_spectrum_are_not_displayed() {
    // At 0 Hz sample rate every bin is below the cutoff; only the range limits.
    let layout = SpectrumLayout::new(16, 0);
    assert!(layout.is_displayed(4));
    assert!(!layout.is_displayed(8));
    assert!(!layout.is_displayed(12));
    assert!(layout.is_below_cutoff(12));
}

#[test]
fn displayed_bins_of_the_reference_layout() {
    assert_eq!(
        reference().displayed_bins(),
        vec![0, 4, 8, 12, 16, 20, 24, 28, 32, 36, 40, 44]
    );
}

#[test]
fn displayed_bins_agree_with_is_displayed() {
    for &(size, rate) in &[(1024usize, 44100u32), (2048, 48000), (64, 8000), (10, 100), (512, 0)] {
        let layout = SpectrumLayout::new(size, rate);
        let expected: Vec<usize> = (0..size).filter(|&k| layout.is_displayed(k)).collect();
        assert_eq!(layout.displayed_bins(), expected);
    }
}

#[test]
fn degenerate_sizes_have_no_bins() {
    for size in 0..2usize {
        let layout = SpectrumLayout::new(size, SAMPLE_RATE);
        assert_eq!(layout.bin_count(), 0);
        assert_eq!(layout.displayed_bins(), Vec::<usize>::new());
        assert!(!layout.is_displayed(0));
    }
    let layout = SpectrumLayout::new(2, SAMPLE_RATE);
    assert_eq!(layout.bin_count(), 1);
    assert_eq!(layout.displayed_bins(), vec![0]);
}

#[test]
fn halfway_frequencies_round_to_even() {
    // Bin k of 16 samples at 4 Hz sits at k / 4 Hz.
    let layout = SpectrumLayout::new(16, 4);
    assert_eq!(layout.label(0), 0);
    assert_eq!(layout.label(1), 0);
    assert_eq!(layout.label(2), 0);
    assert_eq!(layout.label(3), 1);
    assert_eq!(layout.label(4), 1);
    assert_eq!(layout.label(5), 1);
    assert_eq!(layout.label(6), 2);
    assert_eq!(layout.label(7), 2);
    // Bin 128 of the reference layout sits at exactly 5512.5 Hz.
    assert_eq!(reference().label(128), 5512);
    assert_eq!(reference().label(384), 16538);
}

#[test]
fn labels_match_the_formatted_frequency() {
    let layout = reference();
    for k in 0..layout.bin_count() {
        let freq = k as f32 * SAMPLE_RATE as f32 / FFT_SIZE as f32;
        assert_eq!(format!("{}", layout.label(k)), format!("{:.0}", freq), "bin {}", k);
    }
    let layout = SpectrumLayout::new(16, 4);
    for k in 0..8usize {
        let freq = k as f32 * 4.0 / 16.0;
        assert_eq!(format!("{}", layout.label(k)), format!("{:.0}", freq), "bin {}", k);
    }
}

#[test]
fn cutoff_matches_the_frequency_comparison() {
    let layout = reference();
    for k in 0..layout.bin_count() {
        let freq = k as f32 * SAMPLE_RATE as f32 / FFT_SIZE as f32;
        assert_eq!(layout.is_below_cutoff(k), freq < 2000.0, "bin {}", k);
    }
}

#[test]
fn largest_parameters_do_not_overflow() {
    let layout = SpectrumLayout::new(usize::MAX, u32::MAX);
    let last = layout.bin_count() - 1;
    assert!(!layout.is_below_cutoff(last));
    assert_eq!(layout.label(last), u32::MAX / 2);
    assert!(layout.is_displayed(0));
}
