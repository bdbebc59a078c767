use visualizer::dsp::{Analyzer, AudioFeatures, Band, Measurement, FFT_SIZE, HISTORY_LEN};
use visualizer::single::Single;

fn single(x: f32) -> Single {
    Single { bits: x.to_bits() }
}

fn analyzer() -> Analyzer {
    // The edges of the bands at 48 kHz: 20, 250, 4000 and 16000 Hz.
    Analyzer::new((0, 11), (10, 171), (170, 683))
}

fn quiet() -> Measurement {
    let zero = single(0.0);
    Measurement {
        raw_bass: zero,
        raw_mid: zero,
        raw_treble: zero,
        eased_bass: zero,
        eased_mid: zero,
        eased_treble: zero,
        average: zero,
        threshold: zero,
        faded_beat: zero,
    }
}

#[test]
fn bands_have_their_bins() {
    let a = analyzer();
    assert_eq!((a.bass.lo_bin, a.bass.hi_bin), (1, 11));
    assert_eq!((a.mid.lo_bin, a.mid.hi_bin), (10, 171));
    assert_eq!((a.treble.lo_bin, a.treble.hi_bin), (170, 683));
    let b = Band::new(1000, 5000);
    assert_eq!((b.lo_bin, b.hi_bin), (1000, 1024));
    let b = Band::new(5, 5);
    assert_eq!((b.lo_bin, b.hi_bin), (5, 6));
    let b = Band::new(2000, 9000);
    assert_eq!((b.lo_bin, b.hi_bin), (2000, 2001));
    let b = Band::new(0, 1);
    assert_eq!((b.lo_bin, b.hi_bin), (1, 1));
}

#[test]
fn window_slides() {
    let mut a = analyzer();
    a.feed(&[]);
    assert!(a.samples.iter().all(|&x| x == 0));
    a.feed(&[1, 2, 3]);
    assert_eq!(a.samples.len(), FFT_SIZE);
    assert_eq!(&a.samples[FFT_SIZE - 4..], &[0, 1, 2, 3]);
    a.feed(&[4]);
    assert_eq!(&a.samples[FFT_SIZE - 5..], &[0, 1, 2, 3, 4]);
    let long: Vec<u32> = (0..5000).collect();
    a.feed(&long);
    assert_eq!(a.samples[0], 5000 - FFT_SIZE as u32);
    assert_eq!(a.samples[FFT_SIZE - 1], 4999);
    let exact: Vec<u32> = (7..7 + FFT_SIZE as u32).collect();
    a.feed(&exact);
    assert_eq!(a.samples, exact);
}

#[test]
fn pieces_make_no_difference() {
    let all: Vec<u32> = (1..3000).collect();
    let mut a = analyzer();
    a.feed(&all);
    let mut b = analyzer();
    for piece in all.chunks(700) {
        b.feed(piece);
    }
    assert_eq!(a.samples, b.samples);
}

#[test]
fn peaks_snap_up_and_ease_down() {
    let mut a = analyzer();
    let m = Measurement {
        raw_bass: single(0.5),
        eased_bass: single(0.2),
        raw_mid: single(0.1),
        eased_mid: single(0.45),
        raw_treble: single(f32::NAN),
        eased_treble: single(0.3),
        ..quiet()
    };
    assert_eq!(m.held(), (single(0.5), single(0.45), single(0.3)));
    let f = a.analyze(&m, single(0.4));
    assert_eq!(
        f,
        AudioFeatures {
            bass: single(0.5),
            mid: single(0.45),
            treble: single(0.3),
            level: single(0.4),
            beat: single(0.0),
        }
    );
    assert_eq!(a.bass.smoothed, single(0.5));
    assert_eq!(AudioFeatures::default().beat, single(0.0));
}

#[test]
fn beats_need_a_clear_kick() {
    let loud = Measurement {
        raw_bass: single(0.8),
        average: single(0.5),
        threshold: single(0.5 * 1.4),
        faded_beat: single(0.1),
        ..quiet()
    };
    assert_eq!(analyzer().analyze(&loud, single(0.0)).beat, single(1.0));
    let weak = Measurement { raw_bass: single(0.7), threshold: single(0.7), ..loud };
    assert_eq!(analyzer().analyze(&weak, single(0.0)).beat, single(0.1));
    let noise = Measurement { average: single(0.02), ..loud };
    assert_eq!(analyzer().analyze(&noise, single(0.0)).beat, single(0.1));
    let above = Measurement { average: single(0.020001), ..loud };
    assert_eq!(analyzer().analyze(&above, single(0.0)).beat, single(1.0));
}

#[test]
fn history_is_a_ring() {
    let mut a = analyzer();
    for i in 0..HISTORY_LEN + 2 {
        let m = Measurement { raw_bass: single(i as f32), ..quiet() };
        a.analyze(&m, single(0.0));
    }
    assert_eq!(a.history_pos, 2);
    assert_eq!(a.bass_history[0], single(60.0));
    assert_eq!(a.bass_history[1], single(61.0));
    assert_eq!(a.bass_history[2], single(2.0));
    assert_eq!(a.bass_history.len(), 60);
}

fn in_unit(f: &AudioFeatures) -> bool {
    [f.bass, f.mid, f.treble, f.level, f.beat]
        .iter()
        .all(|s| (0.0..=1.0).contains(&f32::from_bits(s.bits)))
}

fn number(s: Single) -> f32 {
    f32::from_bits(s.bits)
}

/// One frame with the same energy in all bands.
fn frame(a: &mut Analyzer, energy: f32) -> AudioFeatures {
    let average = a.bass_history.iter().map(|x| number(*x)).sum::<f32>() / HISTORY_LEN as f32;
    let m = Measurement {
        raw_bass: single(energy),
        raw_mid: single(energy),
        raw_treble: single(energy),
        eased_bass: single(number(a.bass.smoothed) * 0.9),
        eased_mid: single(number(a.mid.smoothed) * 0.9),
        eased_treble: single(number(a.treble.smoothed) * 0.9),
        average: single(average),
        threshold: single(average * 1.4),
        faded_beat: single(number(a.beat_env) * 0.86),
    };
    let (bass, mid, treble) = m.held();
    a.analyze(&m, single((number(bass) + number(mid) + number(treble)) / 3.0))
}

#[test]
fn features_stay_normalised() {
    let mut a = analyzer();
    for i in 0..200 {
        let f = frame(&mut a, if i % 7 == 0 { 1.0 } else { 0.1 });
        assert!(in_unit(&f));
    }
}

#[test]
fn silence_lets_everything_fall() {
    let mut a = analyzer();
    for _ in 0..5 {
        frame(&mut a, 0.75);
    }
    let f = frame(&mut a, 1.0);
    assert_eq!((f.bass, f.beat), (single(1.0), single(1.0)));
    let g = frame(&mut a, 0.0);
    assert_eq!((g.bass, g.mid, g.treble), (single(0.9), single(0.9), single(0.9)));
    assert_eq!(g.beat, single(0.86));
}

#[test]
fn no_beat_in_the_first_two_frames() {
    let mut a = analyzer();
    assert_eq!(frame(&mut a, 1.0).beat, single(0.0));
    assert_eq!(frame(&mut a, 1.0).beat, single(0.0));
    assert_eq!(frame(&mut a, 1.0).beat, single(1.0));
}
