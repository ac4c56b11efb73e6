//! From one spectrum to one colour: the largest magnitude of each of three
//! frequency bands, each shown as its share of the largest of the three.
use crate::error::PipelineError;
use crate::magnitude::is_magnitude_bits;
use crate::magnitude::lemma_value_order;
use crate::magnitude::lemma_value_zero;
use crate::magnitude::magnitude_value;
use crate::magnitude::LARGEST_FINITE;
use crate::normalize::channel;
use crate::normalize::channel_level;
use crate::normalize::lemma_level_in_range;
use crate::normalize::lemma_level_saturates;
use crate::normalize::round_div;
use crate::normalize::Color;
use vstd::prelude::*;

verus! {

/// The number of samples of a window for which the bands are laid out: with
/// as many samples as the track has in a second, the number of a bin is its
/// frequency.
pub const WINDOW_SIZE: usize = 40000;

/// The first bin of the low band. The bins below it are ignored.
pub const LOW_BAND_START: usize = 20;

/// The first bin of the middle band, and the end of the low band.
pub const MID_BAND_START: usize = 250;

/// The first bin of the high band, and the end of the middle band. The high
/// band ends with the first half of the spectrum.
pub const HIGH_BAND_START: usize = 4000;

/// The magnitudes of one transformed window, one per frequency bin, each held
/// by its bit pattern. Only the first half carries information.
#[derive(Debug)]
pub struct Spectrum {
    bins: Vec<u32>,
}

/// The largest magnitude of each band, by bit pattern.
#[derive(Clone, Copy, Debug, PartialEq, Eq, Structural)]
pub struct BandPeaks {
    pub low: u32,
    pub mid: u32,
    pub high: u32,
}

impl View for Spectrum {
    type V = Seq<u32>;

    closed spec fn view(&self) -> Seq<u32> {
        self.bins@
    }
}

/// Whether every bin holds a magnitude.
pub open spec fn all_magnitudes(bins: Seq<u32>) -> bool {
    forall|bin: int| 0 <= bin < bins.len() ==> is_magnitude_bits(#[trigger] bins[bin])
}

/// The largest bit pattern among the bins from `first` up to, but without,
/// `end`. The search starts from the band's first bin, so a band is never
/// left without a value.
pub open spec fn band_peak(bins: Seq<u32>, first: int, end: int) -> u32
    decreases end - first,
{
    if end <= first + 1 {
        bins[first]
    } else if bins[end - 1] > band_peak(bins, first, end - 1) {
        bins[end - 1]
    } else {
        band_peak(bins, first, end - 1)
    }
}

/// How far a band from `first` to `end` has been scanned when the scan
/// stands at `bin`.
pub open spec fn scanned(bin: int, first: int, end: int) -> int {
    if bin < first {
        first
    } else if bin < end {
        bin
    } else {
        end
    }
}

/// The number of bins that carry information: the first half.
pub open spec fn meaningful_bins(bins: Seq<u32>) -> int {
    (bins.len() / 2) as int
}

/// Whether the spectrum is long enough for each band to start inside its
/// meaningful half.
pub open spec fn spans_bands(bins: Seq<u32>) -> bool {
    HIGH_BAND_START < meaningful_bins(bins)
}

/// The peaks of the three bands of a spectrum.
pub open spec fn peaks_of(bins: Seq<u32>) -> BandPeaks {
    BandPeaks {
        low: band_peak(bins, LOW_BAND_START as int, MID_BAND_START as int),
        mid: band_peak(bins, MID_BAND_START as int, HIGH_BAND_START as int),
        high: band_peak(bins, HIGH_BAND_START as int, meaningful_bins(bins)),
    }
}

impl BandPeaks {
    /// The largest of the three peaks, by which the window is normalised.
    pub open spec fn scale(self) -> u32 {
        if self.low >= self.mid && self.low >= self.high {
            self.low
        } else if self.mid >= self.high {
            self.mid
        } else {
            self.high
        }
    }

    /// The colour of the peaks: low to red, middle to green, high to blue.
    pub open spec fn color(self) -> Color {
        let scale = magnitude_value(self.scale());
        (
            channel_level(magnitude_value(self.low), scale) as u8,
            channel_level(magnitude_value(self.mid), scale) as u8,
            channel_level(magnitude_value(self.high), scale) as u8,
        )
    }

    /// Whether no band holds any energy.
    pub open spec fn silent(self) -> bool {
        self.low == 0 && self.mid == 0 && self.high == 0
    }
}

/// The colour of a spectrum.
pub open spec fn color_of(bins: Seq<u32>) -> Color {
    peaks_of(bins).color()
}

/// The peak of a band is one of the band's magnitudes, and none of them is
/// larger.
pub proof fn lemma_band_peak_is_largest(bins: Seq<u32>, first: int, end: int)
    requires
        0 <= first < end <= bins.len(),
    ensures
        exists|bin: int| first <= bin < end && bins[bin] == band_peak(bins, first, end),
        forall|bin: int|
            first <= bin < end ==> magnitude_value(#[trigger] bins[bin]) <= magnitude_value(
                band_peak(bins, first, end),
            ),
    decreases end - first,
{
    let peak = band_peak(bins, first, end);
    if end <= first + 1 {
        assert(bins[first] == peak);
    } else {
        lemma_band_peak_is_largest(bins, first, end - 1);
        let before = band_peak(bins, first, end - 1);
        let witness = choose|bin: int| first <= bin < end - 1 && bins[bin] == before;
        if bins[end - 1] > before {
            assert(bins[end - 1] == peak);
        } else {
            assert(bins[witness] == peak);
        }
        lemma_value_order(before, peak);
        assert forall|bin: int| first <= bin < end implies
            magnitude_value(#[trigger] bins[bin]) <= magnitude_value(peak)
        by {
            if bin == end - 1 {
                lemma_value_order(bins[bin], peak);
            }
        }
    }
}

/// The peak of a band depends on the band's own bins alone.
pub proof fn lemma_band_peak_reads_band(left: Seq<u32>, right: Seq<u32>, first: int, end: int)
    requires
        0 <= first < end,
        end <= left.len(),
        end <= right.len(),
        forall|bin: int| first <= bin < end ==> left[bin] == right[bin],
    ensures
        band_peak(left, first, end) == band_peak(right, first, end),
    decreases end - first,
{
    if end > first + 1 {
        lemma_band_peak_reads_band(left, right, first, end - 1);
    }
}

/// The colour of a spectrum depends on nothing but the bins from the start
/// of the low band to the end of the first half: two spectra that agree
/// there have the same peaks and the same colour.
pub proof fn lemma_color_reads_first_half(left: Seq<u32>, right: Seq<u32>)
    requires
        left.len() == right.len(),
        spans_bands(left),
        forall|bin: int| LOW_BAND_START <= bin < meaningful_bins(left) ==> left[bin] == right[bin],
    ensures
        peaks_of(left) == peaks_of(right),
        color_of(left) == color_of(right),
{
    lemma_band_peak_reads_band(left, right, LOW_BAND_START as int, MID_BAND_START as int);
    lemma_band_peak_reads_band(left, right, MID_BAND_START as int, HIGH_BAND_START as int);
    lemma_band_peak_reads_band(left, right, HIGH_BAND_START as int, meaningful_bins(left));
}

/// The scale is the largest of the three peaks.
pub proof fn lemma_scale_is_largest(peaks: BandPeaks)
    ensures
        peaks.scale() == peaks.low || peaks.scale() == peaks.mid || peaks.scale() == peaks.high,
        magnitude_value(peaks.low) <= magnitude_value(peaks.scale()),
        magnitude_value(peaks.mid) <= magnitude_value(peaks.scale()),
        magnitude_value(peaks.high) <= magnitude_value(peaks.scale()),
        magnitude_value(peaks.scale()) == 0 <==> peaks.silent(),
{
    lemma_value_order(peaks.low, peaks.scale());
    lemma_value_order(peaks.mid, peaks.scale());
    lemma_value_order(peaks.high, peaks.scale());
    lemma_value_zero(peaks.scale());
}

/// Silent peaks are black.
pub proof fn lemma_silent_is_black(peaks: BandPeaks)
    requires
        peaks.silent(),
    ensures
        peaks.color() == (0u8, 0u8, 0u8),
{
    lemma_scale_is_largest(peaks);
}

/// A spectrum without energy in its bands is black.
pub proof fn lemma_silent_spectrum_is_black(bins: Seq<u32>)
    requires
        spans_bands(bins),
        forall|bin: int| LOW_BAND_START <= bin < meaningful_bins(bins) ==> bins[bin] == 0,
    ensures
        peaks_of(bins).silent(),
        color_of(bins) == (0u8, 0u8, 0u8),
{
    lemma_band_peak_is_largest(bins, LOW_BAND_START as int, MID_BAND_START as int);
    lemma_band_peak_is_largest(bins, MID_BAND_START as int, HIGH_BAND_START as int);
    lemma_band_peak_is_largest(bins, HIGH_BAND_START as int, meaningful_bins(bins));
    lemma_silent_is_black(peaks_of(bins));
}

/// With energy in some band, every channel is the rounded share of its peak
/// in the largest peak, which lies between 0 and 255 without clamping, and
/// the channel of the largest peak is at the full level.
pub proof fn lemma_levels_of_sounding_peaks(peaks: BandPeaks)
    requires
        !peaks.silent(),
    ensures
        ({
            let scale = magnitude_value(peaks.scale());
            let (red, green, blue) = peaks.color();
            &&& scale > 0
            &&& red == round_div(255 * magnitude_value(peaks.low), scale) <= 255
            &&& green == round_div(255 * magnitude_value(peaks.mid), scale) <= 255
            &&& blue == round_div(255 * magnitude_value(peaks.high), scale) <= 255
            &&& red == 255 || green == 255 || blue == 255
        }),
{
    let scale = magnitude_value(peaks.scale());
    lemma_scale_is_largest(peaks);
    lemma_level_in_range(magnitude_value(peaks.low), scale);
    lemma_level_in_range(magnitude_value(peaks.mid), scale);
    lemma_level_in_range(magnitude_value(peaks.high), scale);
    lemma_level_saturates(scale, scale);
}

impl Spectrum {
    /// Every bin of a spectrum holds a magnitude.
    #[verifier::type_invariant]
    spec fn holds_magnitudes(self) -> bool {
        all_magnitudes(self.bins@)
    }

    /// Takes the magnitudes of a transformed window, given by their bit
    /// patterns. A pattern that encodes no finite number, or a negative one,
    /// is no magnitude: the transform has failed.
    pub fn from_bits(bits: Vec<u32>) -> (result: Result<Spectrum, PipelineError>)
        ensures
            result is Ok <==> all_magnitudes(bits@),
            result is Ok ==> result->Ok_0@ == bits@,
            result is Err ==> result->Err_0 == PipelineError::TransformFailure,
    {
        let mut bin: usize = 0;
        while bin < bits.len()
            invariant
                bin <= bits.len(),
                forall|seen: int| 0 <= seen < bin ==> is_magnitude_bits(#[trigger] bits@[seen]),
            decreases bits.len() - bin,
        {
            if bits[bin] > LARGEST_FINITE {
                return Err(PipelineError::TransformFailure);
            }
            bin += 1;
        }
        Ok(Spectrum { bins: bits })
    }

    /// The number of bins.
    pub fn len(&self) -> (length: usize)
        ensures
            length == self@.len(),
    {
        self.bins.len()
    }

    /// The bit pattern of the magnitude in `bin`.
    pub fn bin(&self, bin: usize) -> (bits: u32)
        requires
            bin < self@.len(),
        ensures
            bits == self@[bin as int],
            is_magnitude_bits(bits),
    {
        proof {
            use_type_invariant(self);
        }
        self.bins[bin]
    }

    /// Whether the spectrum is long enough to be reduced.
    pub fn covers_bands(&self) -> (long_enough: bool)
        ensures
            long_enough == spans_bands(self@),
    {
        HIGH_BAND_START < self.bins.len() / 2
    }

    /// Scans the first half of the spectrum once and keeps the largest
    /// magnitude of each band.
    pub fn band_peaks(&self) -> (peaks: BandPeaks)
        requires
            spans_bands(self@),
        ensures
            peaks == peaks_of(self@),
    {
        let half: usize = self.bins.len() / 2;
        let mut low: u32 = self.bins[LOW_BAND_START];
        let mut mid: u32 = self.bins[MID_BAND_START];
        let mut high: u32 = self.bins[HIGH_BAND_START];
        let mut bin: usize = LOW_BAND_START;
        while bin < half
            invariant
                LOW_BAND_START <= bin <= half,
                HIGH_BAND_START < half == self.bins@.len() / 2,
                low == band_peak(
                    self.bins@,
                    LOW_BAND_START as int,
                    scanned(bin as int, LOW_BAND_START as int, MID_BAND_START as int),
                ),
                mid == band_peak(
                    self.bins@,
                    MID_BAND_START as int,
                    scanned(bin as int, MID_BAND_START as int, HIGH_BAND_START as int),
                ),
                high == band_peak(
                    self.bins@,
                    HIGH_BAND_START as int,
                    scanned(bin as int, HIGH_BAND_START as int, half as int),
                ),
            decreases half - bin,
        {
            let magnitude: u32 = self.bins[bin];
            if bin < MID_BAND_START {
                if magnitude > low {
                    low = magnitude;
                }
            } else if bin < HIGH_BAND_START {
                if magnitude > mid {
                    mid = magnitude;
                }
            } else {
                if magnitude > high {
                    high = magnitude;
                }
            }
            bin += 1;
        }
        BandPeaks { low, mid, high }
    }
}

/// Normalises the three peaks by the largest of them into one colour.
pub fn normalize(peaks: &BandPeaks) -> (color: Color)
    ensures
        color == peaks.color(),
{
    let scale: u32 = if peaks.low >= peaks.mid && peaks.low >= peaks.high {
        peaks.low
    } else if peaks.mid >= peaks.high {
        peaks.mid
    } else {
        peaks.high
    };
    (channel(peaks.low, scale), channel(peaks.mid, scale), channel(peaks.high, scale))
}

/// The colour of one transformed window: red for the low band, green for the
/// middle band, blue for the high band.
pub fn reduce(spectrum: &Spectrum) -> (color: Color)
    requires
        spans_bands(spectrum@),
    ensures
        color == color_of(spectrum@),
{
    let peaks = spectrum.band_peaks();
    normalize(&peaks)
}

} // verus!
