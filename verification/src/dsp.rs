//! Audio analysis: the sliding sample window, the frequency bands, the
//! peak-holding of their energies and the detection of beats.
//!
//! The transform and the arithmetic on energies are done outside. The library
//! keeps the state between frames and takes the decisions.

use crate::single;
use crate::single::Single;
use vstd::prelude::*;

verus! {

/// Number of samples of a transform. A power of two.
pub const FFT_SIZE: usize = 2048;

/// Number of bins of a transform of real samples that carry a frequency.
pub const USABLE_BINS: usize = 1024;

/// Number of bass energies that the beat detection looks back on, about one
/// second at typical frame rates.
pub const HISTORY_LEN: usize = 60;

/// The bit pattern of 0.02, the average bass energy below which there are no
/// beats.
pub const BEAT_FLOOR: u32 = 0x3ca3_d70a;

/// Features handed to the renderer each frame. All roughly normalised to 0..1.
#[derive(Clone, Copy, Debug, PartialEq, Eq, Structural)]
pub struct AudioFeatures {
    pub bass: Single,
    pub mid: Single,
    pub treble: Single,
    pub level: Single,
    /// Beat envelope: jumps to 1.0 on a detected kick, then fades.
    pub beat: Single,
}

impl Default for AudioFeatures {
    fn default() -> (r: AudioFeatures)
        ensures
            r.bass.bits == single::ZERO,
            r.mid.bits == single::ZERO,
            r.treble.bits == single::ZERO,
            r.level.bits == single::ZERO,
            r.beat.bits == single::ZERO,
    {
        let zero = Single { bits: single::ZERO };
        AudioFeatures { bass: zero, mid: zero, treble: zero, level: zero, beat: zero }
    }
}

/// A range of bins, with the energy held for it.
#[derive(Clone, Copy, Debug, PartialEq, Eq, Structural)]
pub struct Band {
    /// The first bin.
    pub lo_bin: usize,
    /// The bin behind the last one.
    pub hi_bin: usize,
    /// The held energy.
    pub smoothed: Single,
}

/// The first bin of a band whose lower edge falls into bin `lo`. Bin 0, the
/// constant part of the signal, belongs to no band.
pub open spec fn first_bin(lo: int) -> int {
    if lo < 1 {
        1
    } else {
        lo
    }
}

/// The bin behind the last one of a band whose edges fall into bin `lo` and below
/// bin `hi`.
pub open spec fn end_bin(lo: int, hi: int) -> int {
    let cut = if hi < USABLE_BINS {
        hi
    } else {
        USABLE_BINS as int
    };
    if cut < lo + 1 {
        lo + 1
    } else {
        cut
    }
}

impl Band {
    /// A band from the bin of its lower edge to the bin of its upper edge, the
    /// one rounded down and the other rounded up.
    pub fn new(lo: usize, hi: usize) -> (r: Band)
        requires
            lo < usize::MAX,
        ensures
            r.lo_bin == first_bin(lo as int),
            r.hi_bin == end_bin(lo as int, hi as int),
            r.smoothed.bits == single::ZERO,
    {
        let cut: usize = if hi < USABLE_BINS {
            hi
        } else {
            USABLE_BINS
        };
        Band {
            lo_bin: if lo < 1 {
                1
            } else {
                lo
            },
            hi_bin: if cut < lo + 1 {
                lo + 1
            } else {
                cut
            },
            smoothed: Single { bits: single::ZERO },
        }
    }
}

/// A band lies inside the usable bins if its lower edge does, and holds at least
/// one bin unless both its edges fall into the first.
pub proof fn bands_are_usable(lo: int, hi: int)
    requires
        0 <= lo,
        0 <= hi,
    ensures
        1 <= first_bin(lo) <= end_bin(lo, hi),
        lo < USABLE_BINS ==> end_bin(lo, hi) <= USABLE_BINS,
        lo > 0 || hi > 1 ==> first_bin(lo) < end_bin(lo, hi),
{
}

/// The energies of one frame and what was computed from the state before it.
#[derive(Clone, Copy, Debug, PartialEq, Eq, Structural)]
pub struct Measurement {
    /// Energies of the bands, compressed to 0..1.
    pub raw_bass: Single,
    pub raw_mid: Single,
    pub raw_treble: Single,
    /// The held energies, eased down by one frame.
    pub eased_bass: Single,
    pub eased_mid: Single,
    pub eased_treble: Single,
    /// The average of the bass history.
    pub average: Single,
    /// The energy that a beat must exceed, a multiple of the average.
    pub threshold: Single,
    /// The beat envelope, faded by one frame.
    pub faded_beat: Single,
}

/// The energy to hold for a band: snap up at once, ease down.
pub open spec fn held_energy(raw: Single, eased: Single) -> Single {
    raw.larger(eased)
}

impl Measurement {
    /// The energies to hold for bass, mid and treble.
    pub fn held(&self) -> (r: (Single, Single, Single))
        ensures
            r == (
                held_energy(self.raw_bass, self.eased_bass),
                held_energy(self.raw_mid, self.eased_mid),
                held_energy(self.raw_treble, self.eased_treble),
            ),
    {
        (
            self.raw_bass.max(self.eased_bass),
            self.raw_mid.max(self.eased_mid),
            self.raw_treble.max(self.eased_treble),
        )
    }
}

/// The state of the analysis between frames.
pub struct Analyzer {
    /// The most recent samples, oldest first, as bit patterns.
    pub samples: Vec<u32>,
    pub bass: Band,
    pub mid: Band,
    pub treble: Band,
    /// The most recent bass energies, in a ring.
    pub bass_history: Vec<Single>,
    /// Where the next bass energy goes.
    pub history_pos: usize,
    pub beat_env: Single,
}

/// The last `n` of a sequence.
pub open spec fn last_of<T>(s: Seq<T>, n: int) -> Seq<T> {
    s.skip(s.len() - n)
}

/// Appends `new` to a full window and keeps the last [`FFT_SIZE`] of both.
fn slide(window: &mut Vec<u32>, new: &[u32])
    requires
        old(window)@.len() == FFT_SIZE,
    ensures
        final(window)@ == last_of(old(window)@ + new@, FFT_SIZE as int),
{
    let n: usize = new.len();
    let ghost before = window@;
    let ghost want = last_of(before + new@, FFT_SIZE as int);
    if n >= FFT_SIZE {
        // Only the tail matters.
        let start: usize = n - FFT_SIZE;
        let mut i: usize = 0;
        while i < FFT_SIZE
            invariant
                i <= FFT_SIZE,
                start + FFT_SIZE == n == new@.len(),
                before.len() == window@.len() == FFT_SIZE,
                want == last_of(before + new@, FFT_SIZE as int),
                forall|j: int| 0 <= j < i ==> #[trigger] window@[j] == want[j],
            decreases FFT_SIZE - i,
        {
            window.set(i, new[start + i]);
            i = i + 1;
        }
    } else {
        // Shift left, append the new ones at the end.
        let keep: usize = FFT_SIZE - n;
        let mut i: usize = 0;
        while i < keep
            invariant
                i <= keep,
                keep + n == FFT_SIZE,
                n == new@.len(),
                before.len() == window@.len() == FFT_SIZE,
                want == last_of(before + new@, FFT_SIZE as int),
                forall|j: int| 0 <= j < i ==> #[trigger] window@[j] == want[j],
                forall|j: int| i <= j < FFT_SIZE ==> #[trigger] window@[j] == before[j],
            decreases keep - i,
        {
            let x: u32 = window[i + n];
            window.set(i, x);
            i = i + 1;
        }
        let mut k: usize = 0;
        while k < n
            invariant
                k <= n,
                keep + n == FFT_SIZE,
                n == new@.len(),
                before.len() == window@.len() == FFT_SIZE,
                want == last_of(before + new@, FFT_SIZE as int),
                forall|j: int| 0 <= j < keep + k ==> #[trigger] window@[j] == want[j],
            decreases n - k,
        {
            window.set(keep + k, new[k]);
            k = k + 1;
        }
    }
    assert(window@ =~= want);
}

/// A beat: the bass clearly exceeds its local average, which is not mere noise.
pub open spec fn is_beat(m: Measurement) -> bool {
    Single { bits: BEAT_FLOOR }.less(m.average) && m.threshold.less(m.raw_bass)
}

impl Analyzer {
    /// The window holds one transform, and the history has its length.
    pub open spec fn wf(&self) -> bool {
        &&& self.samples@.len() == FFT_SIZE
        &&& self.bass_history@.len() == HISTORY_LEN
        &&& self.history_pos < HISTORY_LEN
    }

    /// The bass history, oldest first.
    pub open spec fn recent_bass(&self) -> Seq<Single> {
        self.bass_history@.skip(self.history_pos as int) + self.bass_history@.take(
            self.history_pos as int,
        )
    }

    /// An analysis that has heard nothing yet, given the bins of the lower and the
    /// upper edge of each band.
    pub fn new(bass: (usize, usize), mid: (usize, usize), treble: (usize, usize)) -> (r: Analyzer)
        requires
            bass.0 < usize::MAX,
            mid.0 < usize::MAX,
            treble.0 < usize::MAX,
        ensures
            r.wf(),
            heard_nothing(r),
            r.samples@ == Seq::new(FFT_SIZE as nat, |i: int| 0u32),
            r.bass_history@ == Seq::new(HISTORY_LEN as nat, |i: int| Single { bits: single::ZERO }),
            r.history_pos == 0,
            r.beat_env.bits == single::ZERO,
            r.bass.lo_bin == first_bin(bass.0 as int),
            r.bass.hi_bin == end_bin(bass.0 as int, bass.1 as int),
            r.bass.smoothed.bits == single::ZERO,
            r.mid.lo_bin == first_bin(mid.0 as int),
            r.mid.hi_bin == end_bin(mid.0 as int, mid.1 as int),
            r.mid.smoothed.bits == single::ZERO,
            r.treble.lo_bin == first_bin(treble.0 as int),
            r.treble.hi_bin == end_bin(treble.0 as int, treble.1 as int),
            r.treble.smoothed.bits == single::ZERO,
    {
        let zero = Single { bits: single::ZERO };
        let mut samples: Vec<u32> = Vec::new();
        let mut i: usize = 0;
        while i < FFT_SIZE
            invariant
                i <= FFT_SIZE,
                samples@ == Seq::new(i as nat, |i: int| 0u32),
            decreases FFT_SIZE - i,
        {
            samples.push(0);
            i = i + 1;
            assert(samples@ =~= Seq::new(i as nat, |i: int| 0u32));
        }
        let mut history: Vec<Single> = Vec::new();
        let mut k: usize = 0;
        while k < HISTORY_LEN
            invariant
                k <= HISTORY_LEN,
                zero.bits == single::ZERO,
                history@ == Seq::new(k as nat, |i: int| Single { bits: single::ZERO }),
            decreases HISTORY_LEN - k,
        {
            history.push(zero);
            k = k + 1;
            assert(history@ =~= Seq::new(k as nat, |i: int| Single { bits: single::ZERO }));
        }
        Analyzer {
            samples,
            bass: Band::new(bass.0, bass.1),
            mid: Band::new(mid.0, mid.1),
            treble: Band::new(treble.0, treble.1),
            bass_history: history,
            history_pos: 0,
            beat_env: zero,
        }
    }

    /// Feeds newly captured samples; keeps only the most recent [`FFT_SIZE`].
    pub fn feed(&mut self, new: &[u32])
        requires
            old(self).wf(),
        ensures
            final(self).wf(),
            final(self).samples@ == last_of(old(self).samples@ + new@, FFT_SIZE as int),
            final(self).bass == old(self).bass,
            final(self).mid == old(self).mid,
            final(self).treble == old(self).treble,
            final(self).bass_history == old(self).bass_history,
            final(self).history_pos == old(self).history_pos,
            final(self).beat_env == old(self).beat_env,
    {
        slide(&mut self.samples, new);
    }

    /// Takes in the energies of a frame: holds the peaks of the bands, detects a
    /// beat, and remembers the bass. Returns the features, with `level` computed
    /// from the energies that [`Measurement::held`] gives.
    pub fn analyze(&mut self, m: &Measurement, level: Single) -> (r: AudioFeatures)
        requires
            old(self).wf(),
        ensures
            final(self).wf(),
            analyzed(*old(self), *m, level, *final(self), r),
    {
        let (bass, mid, treble) = m.held();
        self.bass.smoothed = bass;
        self.mid.smoothed = mid;
        self.treble.smoothed = treble;

        let floor = Single { bits: BEAT_FLOOR };
        self.beat_env = if floor.lt(m.average) && m.threshold.lt(m.raw_bass) {
            Single { bits: single::ONE }
        } else {
            m.faded_beat
        };
        let pos: usize = self.history_pos;
        self.bass_history.set(pos, m.raw_bass);
        self.history_pos = (pos + 1) % HISTORY_LEN;

        AudioFeatures { bass, mid, treble, level, beat: self.beat_env }
    }
}

/// `after` and `r` are the state and the features after a frame was taken in.
pub open spec fn analyzed(
    before: Analyzer,
    m: Measurement,
    level: Single,
    after: Analyzer,
    r: AudioFeatures,
) -> bool {
    &&& after.bass == (Band { smoothed: held_energy(m.raw_bass, m.eased_bass), ..before.bass })
    &&& after.mid == (Band { smoothed: held_energy(m.raw_mid, m.eased_mid), ..before.mid })
    &&& after.treble == (Band {
        smoothed: held_energy(m.raw_treble, m.eased_treble),
        ..before.treble
    })
    &&& after.beat_env == (if is_beat(m) {
        Single { bits: single::ONE }
    } else {
        m.faded_beat
    })
    &&& after.bass_history@ == before.bass_history@.update(before.history_pos as int, m.raw_bass)
    &&& after.history_pos == (before.history_pos + 1) % HISTORY_LEN as int
    &&& after.samples == before.samples
    &&& r == (AudioFeatures {
        bass: after.bass.smoothed,
        mid: after.mid.smoothed,
        treble: after.treble.smoothed,
        level,
        beat: after.beat_env,
    })
}

/// The window only depends on the samples, not on how they were cut into pieces:
/// feeding two pieces is feeding them as one.
pub proof fn feeding_in_pieces<T>(window: Seq<T>, a: Seq<T>, b: Seq<T>)
    requires
        window.len() == FFT_SIZE,
    ensures
        last_of(last_of(window + a, FFT_SIZE as int) + b, FFT_SIZE as int) == last_of(
            window + (a + b),
            FFT_SIZE as int,
        ),
{
    assert(last_of(last_of(window + a, FFT_SIZE as int) + b, FFT_SIZE as int) =~= last_of(
        window + (a + b),
        FFT_SIZE as int,
    ));
}

/// A piece that fills the window leaves nothing of what was heard before.
pub proof fn long_pieces_replace_the_window<T>(window: Seq<T>, new: Seq<T>)
    requires
        window.len() == FFT_SIZE,
        new.len() >= FFT_SIZE,
    ensures
        last_of(window + new, FFT_SIZE as int) == last_of(new, FFT_SIZE as int),
{
    assert(last_of(window + new, FFT_SIZE as int) =~= last_of(new, FFT_SIZE as int));
}

/// The history slides: taking in a frame drops the oldest bass energy and appends
/// the new one.
pub proof fn history_slides(
    before: Analyzer,
    m: Measurement,
    level: Single,
    after: Analyzer,
    r: AudioFeatures,
)
    requires
        before.wf(),
        analyzed(before, m, level, after, r),
    ensures
        after.recent_bass() == before.recent_bass().drop_first().push(m.raw_bass),
{
    let p = before.history_pos as int;
    if p + 1 < HISTORY_LEN {
        assert(after.history_pos == p + 1);
    } else {
        assert(after.history_pos == 0);
    }
    assert(after.recent_bass() =~= before.recent_bass().drop_first().push(m.raw_bass));
}

/// A held energy is at least the energy of the frame, so that peaks show at once,
/// and at least the eased one, so that it falls no faster than it is eased.
pub proof fn peaks_are_held(raw: Single, eased: Single)
    requires
        !raw.nan(),
        !eased.nan(),
    ensures
        raw.at_most(held_energy(raw, eased)),
        eased.at_most(held_energy(raw, eased)),
        held_energy(raw, eased) == raw || held_energy(raw, eased) == eased,
{
}

/// There is no beat in near silence, and none where the bass does not exceed the
/// threshold.
pub proof fn no_beat_in_silence(m: Measurement)
    requires
        m.average.at_most(Single { bits: BEAT_FLOOR }) || m.raw_bass.at_most(m.threshold),
    ensures
        !is_beat(m),
{
}

/// A number in 0..=1.
pub open spec fn in_unit(x: Single) -> bool {
    Single { bits: single::ZERO }.at_most(x) && x.at_most(Single { bits: single::ONE })
}

/// All features lie in 0..=1.
pub open spec fn features_in_unit(f: AudioFeatures) -> bool {
    in_unit(f.bass) && in_unit(f.mid) && in_unit(f.treble) && in_unit(f.level) && in_unit(f.beat)
}

/// The energies of a frame lie in 0..=1.
pub open spec fn energies_in_unit(m: Measurement) -> bool {
    in_unit(m.raw_bass) && in_unit(m.raw_mid) && in_unit(m.raw_treble)
}

/// What is held from frame to frame lies in 0..=1.
pub open spec fn state_in_unit(a: Analyzer) -> bool {
    &&& in_unit(a.bass.smoothed)
    &&& in_unit(a.mid.smoothed)
    &&& in_unit(a.treble.smoothed)
    &&& in_unit(a.beat_env)
    &&& history_in_unit(a.bass_history@)
}

/// All energies of a history lie in 0..=1.
pub open spec fn history_in_unit(history: Seq<Single>) -> bool {
    forall|i: int| 0 <= i < history.len() ==> in_unit(#[trigger] history[i])
}

/// The features are normalised to 0..=1: if the energies of a frame, the eased
/// energies, the faded beat and the level lie there, so do all five features, and
/// what is held for the next frame stays there too.
pub proof fn features_are_normalised(
    before: Analyzer,
    m: Measurement,
    level: Single,
    after: Analyzer,
    r: AudioFeatures,
)
    requires
        before.wf(),
        analyzed(before, m, level, after, r),
        energies_in_unit(m),
        in_unit(m.eased_bass),
        in_unit(m.eased_mid),
        in_unit(m.eased_treble),
        in_unit(m.faded_beat),
        in_unit(level),
    ensures
        features_in_unit(r),
        state_in_unit(before) ==> state_in_unit(after),
{
}

/// How numbers are computed between frames.
pub struct Tuning {
    /// An energy, eased down by one frame.
    pub ease: spec_fn(Single) -> Single,
    /// The beat envelope, faded by one frame.
    pub fade: spec_fn(Single) -> Single,
    /// The mean of three energies.
    pub mean: spec_fn(Single, Single, Single) -> Single,
    /// The average of the bass history.
    pub average: spec_fn(Seq<Single>) -> Single,
    /// The energy that a beat must exceed, given the average.
    pub threshold: spec_fn(Single) -> Single,
}

/// `m` and `level` were computed from the state before a frame.
pub open spec fn computed(t: Tuning, before: Analyzer, m: Measurement, level: Single) -> bool {
    &&& m.eased_bass == (t.ease)(before.bass.smoothed)
    &&& m.eased_mid == (t.ease)(before.mid.smoothed)
    &&& m.eased_treble == (t.ease)(before.treble.smoothed)
    &&& m.faded_beat == (t.fade)(before.beat_env)
    &&& m.average == (t.average)(before.bass_history@)
    &&& m.threshold == (t.threshold)(m.average)
    &&& level == (t.mean)(
        held_energy(m.raw_bass, m.eased_bass),
        held_energy(m.raw_mid, m.eased_mid),
        held_energy(m.raw_treble, m.eased_treble),
    )
}

/// `states` are the states that frames with the measurements `ms` and the levels
/// `levels` lead through, from one that has heard nothing yet, and `rs` the features
/// that come of them.
pub open spec fn analysis_run(
    t: Tuning,
    states: Seq<Analyzer>,
    ms: Seq<Measurement>,
    levels: Seq<Single>,
    rs: Seq<AudioFeatures>,
) -> bool {
    &&& states.len() == ms.len() + 1
    &&& levels.len() == ms.len()
    &&& rs.len() == ms.len()
    &&& states[0].wf()
    &&& heard_nothing(states[0])
    &&& forall|k: int|
        0 <= k < ms.len() ==> {
            &&& computed(t, states[k], #[trigger] ms[k], levels[k])
            &&& analyzed(states[k], ms[k], levels[k], states[k + 1], rs[k])
        }
}

/// Nothing is held yet.
pub open spec fn heard_nothing(a: Analyzer) -> bool {
    &&& a.bass.smoothed.bits == single::ZERO
    &&& a.mid.smoothed.bits == single::ZERO
    &&& a.treble.smoothed.bits == single::ZERO
    &&& a.beat_env.bits == single::ZERO
    &&& forall|i: int|
        0 <= i < a.bass_history@.len() ==> (#[trigger] a.bass_history@[i]).bits == single::ZERO
}

/// Easing, fading and taking the mean stay in 0..=1.
pub open spec fn keeps_the_unit(t: Tuning) -> bool {
    &&& forall|x: Single| in_unit(x) ==> in_unit(#[trigger] (t.ease)(x))
    &&& forall|x: Single| in_unit(x) ==> in_unit(#[trigger] (t.fade)(x))
    &&& forall|x: Single, y: Single, z: Single|
        in_unit(x) && in_unit(y) && in_unit(z) ==> in_unit(#[trigger] (t.mean)(x, y, z))
}

/// From the first frame on, and however many follow, all features lie in 0..=1, as
/// long as the energies of the frames do and easing, fading and taking the mean do
/// not lead out of it.
pub proof fn features_stay_normalised(
    t: Tuning,
    states: Seq<Analyzer>,
    ms: Seq<Measurement>,
    levels: Seq<Single>,
    rs: Seq<AudioFeatures>,
    k: int,
)
    requires
        analysis_run(t, states, ms, levels, rs),
        keeps_the_unit(t),
        forall|i: int| 0 <= i < ms.len() ==> energies_in_unit(#[trigger] ms[i]),
        0 <= k < ms.len(),
    ensures
        features_in_unit(rs[k]),
        states[k].wf(),
        state_in_unit(states[k]),
        state_in_unit(states[k + 1]),
    decreases k,
{
    if k > 0 {
        features_stay_normalised(t, states, ms, levels, rs, k - 1);
        assert(analyzed(states[k - 1], ms[k - 1], levels[k - 1], states[k], rs[k - 1]));
    }
    let m = ms[k];
    assert(computed(t, states[k], m, levels[k]));
    assert(energies_in_unit(m));
    assert(in_unit(held_energy(m.raw_bass, m.eased_bass)));
    assert(in_unit(held_energy(m.raw_mid, m.eased_mid)));
    assert(in_unit(held_energy(m.raw_treble, m.eased_treble)));
    features_are_normalised(states[k], m, levels[k], states[k + 1], rs[k]);
}

/// A number without the sign bit.
pub open spec fn unsigned(x: Single) -> bool {
    !x.nan() && x.bits < 0x8000_0000
}

/// Silence lets everything fall and never brings a beat: each band falls to its
/// eased energy, and the beat fades.
pub proof fn silence_lets_everything_fall(
    t: Tuning,
    before: Analyzer,
    m: Measurement,
    level: Single,
    after: Analyzer,
    r: AudioFeatures,
)
    requires
        computed(t, before, m, level),
        analyzed(before, m, level, after, r),
        m.raw_bass.bits == single::ZERO,
        m.raw_mid.bits == single::ZERO,
        m.raw_treble.bits == single::ZERO,
        unsigned(m.eased_bass),
        unsigned(m.eased_mid),
        unsigned(m.eased_treble),
        unsigned(m.threshold),
    ensures
        r == (AudioFeatures {
            bass: (t.ease)(before.bass.smoothed),
            mid: (t.ease)(before.mid.smoothed),
            treble: (t.ease)(before.treble.smoothed),
            level,
            beat: (t.fade)(before.beat_env),
        }),
{
}

/// At most one energy of a history is not zero.
pub open spec fn mostly_zero(history: Seq<Single>) -> bool {
    exists|p: int| #[trigger] zero_but_at(history, p)
}

/// All energies of a history but the one at `p` are zero.
pub open spec fn zero_but_at(history: Seq<Single>, p: int) -> bool {
    forall|i: int|
        0 <= i < history.len() && i != p ==> (#[trigger] history[i]).bits == single::ZERO
}

/// A history with at most one energy that is not zero averages to no more than the
/// floor, and a beat envelope of zero fades to zero.
pub open spec fn averages_start_low(t: Tuning) -> bool {
    &&& forall|h: Seq<Single>|
        h.len() == HISTORY_LEN && mostly_zero(h) && history_in_unit(h) ==> (#[trigger] (t.average)(
            h,
        )).at_most(Single { bits: BEAT_FLOOR })
    &&& (t.fade)(Single { bits: single::ZERO }).bits == single::ZERO
}

/// However loud it is, there is no beat in the first two frames, as long as a
/// history with at most one energy that is not zero averages to no more than the
/// floor, and a beat envelope of zero fades to zero.
pub proof fn no_beat_in_the_first_two_frames(
    t: Tuning,
    states: Seq<Analyzer>,
    ms: Seq<Measurement>,
    levels: Seq<Single>,
    rs: Seq<AudioFeatures>,
    k: int,
)
    requires
        analysis_run(t, states, ms, levels, rs),
        forall|i: int| 0 <= i < ms.len() ==> energies_in_unit(#[trigger] ms[i]),
        averages_start_low(t),
        0 <= k < ms.len(),
        k < 2,
    ensures
        !is_beat(ms[k]),
        rs[k].beat.bits == single::ZERO,
{
    assert(computed(t, states[0], ms[0], levels[0]));
    assert(analyzed(states[0], ms[0], levels[0], states[1], rs[0]));
    assert(energies_in_unit(ms[0]));
    assert(zero_but_at(states[0].bass_history@, 0));
    assert(!is_beat(ms[0]));
    assert(rs[0].beat == (t.fade)(Single { bits: single::ZERO }));
    if k == 1 {
        assert(computed(t, states[1], ms[1], levels[1]));
        assert(analyzed(states[1], ms[1], levels[1], states[2], rs[1]));
        assert(zero_but_at(states[1].bass_history@, states[0].history_pos as int));
        assert(!is_beat(ms[1]));
    }
}

/// A beat is exactly a bass above the threshold while its average is above the
/// floor of 0.02, whatever else the frame holds; the envelope then is 1.0, and else
/// it fades.
pub proof fn a_clear_kick_is_a_beat(
    a: &mut Analyzer,
    m: &Measurement,
    level: Single,
    r: AudioFeatures,
)
    requires
        call_ensures(Analyzer::analyze, (a, m, level), r),
    ensures
        (Single { bits: 0x3ca3_d70a }).less(m.average) && m.threshold.less(m.raw_bass) ==> {
            &&& r.beat.bits == 0x3f80_0000
            &&& final(a).beat_env.bits == 0x3f80_0000
        },
        !(Single { bits: 0x3ca3_d70a }).less(m.average) || !m.threshold.less(m.raw_bass) ==> {
            &&& r.beat == m.faded_beat
            &&& final(a).beat_env == m.faded_beat
        },
{
}

/// Each band shows the larger of its energy and its eased energy, and holds it; the
/// level is handed on.
pub proof fn bands_show_their_peaks(
    a: &mut Analyzer,
    m: &Measurement,
    level: Single,
    r: AudioFeatures,
)
    requires
        call_ensures(Analyzer::analyze, (a, m, level), r),
    ensures
        r.bass == m.raw_bass || r.bass == m.eased_bass,
        !r.bass.less(m.raw_bass) && !r.bass.less(m.eased_bass),
        m.raw_bass.nan() ==> r.bass == m.eased_bass,
        m.eased_bass.nan() && !m.raw_bass.nan() ==> r.bass == m.raw_bass,
        r.mid == m.raw_mid || r.mid == m.eased_mid,
        !r.mid.less(m.raw_mid) && !r.mid.less(m.eased_mid),
        m.raw_mid.nan() ==> r.mid == m.eased_mid,
        m.eased_mid.nan() && !m.raw_mid.nan() ==> r.mid == m.raw_mid,
        r.treble == m.raw_treble || r.treble == m.eased_treble,
        !r.treble.less(m.raw_treble) && !r.treble.less(m.eased_treble),
        m.raw_treble.nan() ==> r.treble == m.eased_treble,
        m.eased_treble.nan() && !m.raw_treble.nan() ==> r.treble == m.raw_treble,
        r.level == level,
        final(a).bass.smoothed == r.bass,
        final(a).mid.smoothed == r.mid,
        final(a).treble.smoothed == r.treble,
{
}

/// What is computed with before a frame is what the frame shows: the peaks that
/// are handed out for the level are those of the features.
pub proof fn the_level_is_that_of_the_peaks(
    a: &mut Analyzer,
    m: &Measurement,
    level: Single,
    peaks: (Single, Single, Single),
    r: AudioFeatures,
)
    requires
        call_ensures(Measurement::held, (m,), peaks),
        call_ensures(Analyzer::analyze, (a, m, level), r),
    ensures
        peaks == (r.bass, r.mid, r.treble),
{
}

/// A frame is remembered by its bass alone, at the next of sixty places in turn, and
/// changes neither the window nor the bands' bins.
pub proof fn a_frame_is_remembered_by_its_bass(
    a: &mut Analyzer,
    m: &Measurement,
    level: Single,
    r: AudioFeatures,
)
    requires
        old(a).bass_history@.len() == 60,
        old(a).history_pos < 60,
        call_ensures(Analyzer::analyze, (a, m, level), r),
    ensures
        final(a).bass_history@.len() == 60,
        final(a).bass_history@[old(a).history_pos as int] == m.raw_bass,
        forall|i: int|
            0 <= i < 60 && i != old(a).history_pos ==> #[trigger] final(a).bass_history@[i] == old(
                a,
            ).bass_history@[i],
        old(a).history_pos < 59 ==> final(a).history_pos == old(a).history_pos + 1,
        old(a).history_pos == 59 ==> final(a).history_pos == 0,
        final(a).samples@ == old(a).samples@,
        final(a).bass.lo_bin == old(a).bass.lo_bin && final(a).bass.hi_bin == old(a).bass.hi_bin,
        final(a).mid.lo_bin == old(a).mid.lo_bin && final(a).mid.hi_bin == old(a).mid.hi_bin,
        final(a).treble.lo_bin == old(a).treble.lo_bin && final(a).treble.hi_bin == old(
            a,
        ).treble.hi_bin,
{
}

/// Feeding moves every sample of the window forward by as many places as there are
/// new ones, which come last; of more than 2048 the last stay. Nothing else changes.
pub proof fn feeding_moves_the_window(a: &mut Analyzer, new: &[u32])
    requires
        old(a).samples@.len() == 2048,
        call_ensures(Analyzer::feed, (a, new), ()),
    ensures
        final(a).samples@.len() == 2048,
        forall|k: int|
            0 <= k < 2048 && k + new@.len() < 2048 ==> #[trigger] final(a).samples@[k] == old(
                a,
            ).samples@[k + new@.len()],
        forall|k: int|
            0 <= k < 2048 && k + new@.len() >= 2048 ==> #[trigger] final(a).samples@[k] == new@[k
                + new@.len() - 2048],
        final(a).bass == old(a).bass && final(a).mid == old(a).mid && final(a).treble == old(
            a,
        ).treble,
        final(a).bass_history@ == old(a).bass_history@,
        final(a).history_pos == old(a).history_pos,
        final(a).beat_env == old(a).beat_env,
{
}

/// A band goes from its lower edge to its upper edge. It leaves out bin 0, ends with
/// bin 1023 at the latest, and goes up to one bin beyond its lower edge at least.
pub proof fn bands_go_from_edge_to_edge(lo: usize, hi: usize, r: Band)
    requires
        call_ensures(Band::new, (lo, hi), r),
    ensures
        lo > 0 ==> r.lo_bin == lo,
        lo == 0 ==> r.lo_bin == 1,
        lo < hi <= 1024 ==> r.hi_bin == hi,
        hi > 1024 && lo < 1024 ==> r.hi_bin == 1024,
        hi <= lo || lo >= 1024 ==> r.hi_bin == lo + 1,
        r.smoothed.bits == 0,
{
}

/// An analysis begins with bands as asked for, 2048 silent samples, sixty bass
/// energies of zero, and no beat.
pub proof fn an_analysis_begins_in_silence(
    bass: (usize, usize),
    mid: (usize, usize),
    treble: (usize, usize),
    r: Analyzer,
    b: Band,
    m: Band,
    t: Band,
)
    requires
        call_ensures(Analyzer::new, (bass, mid, treble), r),
        call_ensures(Band::new, (bass.0, bass.1), b),
        call_ensures(Band::new, (mid.0, mid.1), m),
        call_ensures(Band::new, (treble.0, treble.1), t),
    ensures
        r.bass == b && r.mid == m && r.treble == t,
        r.samples@.len() == 2048,
        forall|i: int| 0 <= i < 2048 ==> #[trigger] r.samples@[i] == 0,
        r.bass_history@.len() == 60,
        forall|i: int| 0 <= i < 60 ==> (#[trigger] r.bass_history@[i]).bits == 0,
        r.history_pos == 0,
        r.beat_env.bits == 0,
{
}

/// Samples and frames are taken in by every analysis with a full window and a full
/// history.
pub proof fn everything_heard_is_taken_in(
    a: &mut Analyzer,
    new: &[u32],
    m: &Measurement,
    level: Single,
)
    requires
        old(a).samples@.len() == 2048,
        old(a).bass_history@.len() == 60,
        old(a).history_pos < 60,
    ensures
        call_requires(Analyzer::feed, (a, new)),
        call_requires(Analyzer::analyze, (a, m, level)),
{
}

/// Before the first frame all features are zero.
pub proof fn features_begin_at_zero(r: AudioFeatures)
    requires
        call_ensures(AudioFeatures::default, (), r),
    ensures
        r.bass.bits == 0 && r.mid.bits == 0 && r.treble.bits == 0,
        r.level.bits == 0 && r.beat.bits == 0,
{
}

} // verus!
