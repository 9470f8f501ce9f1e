//! Which frequency bins are drawn, and the frequency each one is labelled
//! with.
//!
//! Bin `k` of a transform of `fft_size` samples taken at `sample_rate` hertz
//! sits at `k * sample_rate / fft_size` hertz. Everything here is stated over
//! that exact quotient; no rounding happens before the label is formed.

use vstd::prelude::*;
use crate::{DISPLAY_CUTOFF_HZ, DISPLAY_STRIDE};

verus! {

/// The integer nearest to `num / den`; where the quotient lies exactly halfway
/// between two integers, the even one.
pub open spec fn rounded_quotient(num: nat, den: nat) -> nat
    recommends
        den > 0,
{
    let q = num / den;
    let r = num % den;
    if 2 * r < den {
        q
    } else if 2 * r > den {
        q + 1
    } else if q % 2 == 0 {
        q
    } else {
        q + 1
    }
}

/// `v` is a nearest integer to `num / den`, and even if `num / den` is halfway
/// between two integers.
pub open spec fn is_nearest_even(num: nat, den: nat, v: int) -> bool {
    let twice_error = if v * den >= num {
        2 * (v * den - num)
    } else {
        2 * (num - v * den)
    };
    &&& twice_error <= den
    &&& twice_error == den ==> v % 2 == 0
}

/// `rounded_quotient` is the one integer that `is_nearest_even` admits.
pub proof fn lemma_rounded_quotient_is_nearest(num: nat, den: nat, v: int)
    requires
        den > 0,
    ensures
        is_nearest_even(num, den, rounded_quotient(num, den) as int),
        is_nearest_even(num, den, v) ==> v == rounded_quotient(num, den),
{
    let q = (num / den) as int;
    let r = (num % den) as int;
    let d = den as int;
    assert(num == q * d + r && 0 <= r < d) by {
        vstd::arithmetic::div_mod::lemma_fundamental_div_mod(num as int, d);
        vstd::arithmetic::div_mod::lemma_mod_bound(num as int, d);
        assert(d * q == q * d) by (nonlinear_arith);
    }
    assert((q + 1) * d == q * d + d) by (nonlinear_arith);
    if is_nearest_even(num, den, v) {
        assert(q <= v <= q + 1) by (nonlinear_arith)
            requires
                num == q * d + r,
                0 <= r < d,
                2 * (v * d - num) <= d,
                2 * (num - v * d) <= d,
        ;
        if v == q {
            assert(v * d == q * d);
        } else {
            assert(v * d == (q + 1) * d);
        }
    }
}

/// The fixed parameters of the analysis: how many samples one transform takes
/// and how fast they were sampled.
#[derive(Clone, Copy, Debug)]
pub struct SpectrumLayout {
    fft_size: usize,
    sample_rate: u32,
}

impl SpectrumLayout {
    /// A layout for transforms of `fft_size` samples taken at `sample_rate`
    /// hertz.
    pub fn new(fft_size: usize, sample_rate: u32) -> (layout: Self)
        ensures
            layout.spec_fft_size() == fft_size,
            layout.spec_sample_rate() == sample_rate,
    {
        SpectrumLayout { fft_size, sample_rate }
    }

    /// The number of samples in one transform.
    pub closed spec fn spec_fft_size(&self) -> usize {
        self.fft_size
    }

    /// The sample rate in hertz.
    pub closed spec fn spec_sample_rate(&self) -> u32 {
        self.sample_rate
    }

    /// Half the transform size: the bins `0..bins()` carry the single-sided
    /// spectrum.
    pub open spec fn bins(&self) -> nat {
        (self.spec_fft_size() / 2) as nat
    }

    /// Bin `bin` lies strictly below the display cutoff: its frequency
    /// `bin * sample_rate / fft_size` is less than `DISPLAY_CUTOFF_HZ`.
    pub open spec fn below_cutoff(&self, bin: int) -> bool {
        bin * self.spec_sample_rate() < DISPLAY_CUTOFF_HZ * self.spec_fft_size()
    }

    /// Bin `bin` gets a line on the display: it is a bin of the single-sided
    /// spectrum, lies below the cutoff, and its index is a multiple of the
    /// stride.
    pub open spec fn displayed(&self, bin: int) -> bool {
        &&& 0 <= bin < self.bins()
        &&& self.below_cutoff(bin)
        &&& bin % (DISPLAY_STRIDE as int) == 0
    }

    /// The frequency of bin `bin` in whole hertz: `bin * sample_rate /
    /// fft_size`, rounded to the nearest integer.
    pub open spec fn label_of(&self, bin: nat) -> nat {
        rounded_quotient(bin * self.spec_sample_rate() as nat, self.spec_fft_size() as nat)
    }

    /// The number of samples in one transform.
    #[verifier::when_used_as_spec(spec_fft_size)]
    pub fn fft_size(&self) -> (n: usize)
        ensures
            n == self.spec_fft_size(),
    {
        self.fft_size
    }

    /// The sample rate in hertz.
    #[verifier::when_used_as_spec(spec_sample_rate)]
    pub fn sample_rate(&self) -> (hz: u32)
        ensures
            hz == self.spec_sample_rate(),
    {
        self.sample_rate
    }

    /// The number of bins in the single-sided spectrum.
    pub fn bin_count(&self) -> (n: usize)
        ensures
            n == self.bins(),
    {
        self.fft_size / 2
    }

    /// Whether the frequency of `bin` is below the display cutoff.
    pub fn is_below_cutoff(&self, bin: usize) -> (below: bool)
        ensures
            below == self.below_cutoff(bin as int),
    {
        proof {
            lemma_scaled_bin_fits(bin, self.sample_rate);
        }
        let scaled: u128 = (bin as u128) * (self.sample_rate as u128);
        let limit: u128 = (DISPLAY_CUTOFF_HZ as u128) * (self.fft_size as u128);
        scaled < limit
    }

    /// Whether `bin` gets a line on the display.
    pub fn is_displayed(&self, bin: usize) -> (shown: bool)
        ensures
            shown == self.displayed(bin as int),
    {
        bin < self.fft_size / 2 && self.is_below_cutoff(bin) && bin % DISPLAY_STRIDE == 0
    }

    /// The bins that get a line, lowest first: the multiples of the stride
    /// from bin 0 up to the last bin below the cutoff.
    pub fn displayed_bins(&self) -> (shown: Vec<usize>)
        ensures
            forall|i: int| 0 <= i < shown@.len() ==> self.displayed(#[trigger] shown@[i] as int),
            forall|bin: int| self.displayed(bin) ==> shown@.contains(bin as usize),
            forall|i: int| 0 <= i < shown@.len() ==> #[trigger] shown@[i] == DISPLAY_STRIDE * i,
    {
        let count = self.bin_count();
        let mut shown: Vec<usize> = Vec::new();
        let mut bin: usize = 0;
        while bin < count
            invariant
                bin <= count,
                count == self.bins(),
                forall|i: int| 0 <= i < shown@.len() ==> self.displayed(#[trigger] shown@[i] as int),
                forall|i: int| 0 <= i < shown@.len() ==> (#[trigger] shown@[i]) < bin,
                forall|i: int| 0 <= i < shown@.len() ==> #[trigger] shown@[i] == DISPLAY_STRIDE * i,
                forall|b: int| 0 <= b < bin && self.displayed(b) ==> shown@.contains(b as usize),
            decreases count - bin,
        {
            if self.is_displayed(bin) {
                let ghost before = shown@;
                proof {
                    // Every multiple of the stride below `bin` is already listed.
                    if bin >= DISPLAY_STRIDE {
                        let prev = bin - DISPLAY_STRIDE;
                        lemma_displayed_downward(*self, prev, bin as int);
                        let i = choose|i: int| 0 <= i < before.len() && before[i] == prev as usize;
                        assert(before[i] == DISPLAY_STRIDE * i);
                    }
                    if before.len() > 0 {
                        assert(before[before.len() - 1] < bin);
                    }
                    assert(bin == DISPLAY_STRIDE * before.len());
                }
                shown.push(bin);
                assert(shown@[before.len() as int] == bin);
                assert forall|b: int| 0 <= b < bin + 1 && self.displayed(b) implies shown@.contains(
                    b as usize,
                ) by {
                    if b < bin {
                        let i = choose|i: int| 0 <= i < before.len() && before[i] == b as usize;
                        assert(shown@[i] == b as usize);
                    }
                }
            }
            bin += 1;
        }
        shown
    }

    /// The frequency of `bin` in whole hertz, as it is printed: the integer
    /// nearest to `bin * sample_rate / fft_size`, the even one of the two when
    /// the frequency lies exactly halfway between them.
    pub fn label(&self, bin: usize) -> (hz: u32)
        requires
            bin < self.bins(),
        ensures
            hz == self.label_of(bin as nat),
            is_nearest_even(
                bin as nat * self.spec_sample_rate() as nat,
                self.spec_fft_size() as nat,
                hz as int,
            ),
    {
        proof {
            lemma_scaled_bin_fits(bin, self.sample_rate);
            lemma_quotient_below_half_rate(bin as int, self.sample_rate as int, self.fft_size as int);
            lemma_rounded_quotient_is_nearest(
                bin as nat * self.sample_rate as nat,
                self.fft_size as nat,
                0,
            );
        }
        let num: u128 = (bin as u128) * (self.sample_rate as u128);
        let den: u128 = self.fft_size as u128;
        let q: u128 = num / den;
        let r: u128 = num % den;
        let up = if 2 * r < den {
            false
        } else if 2 * r > den {
            true
        } else {
            q % 2 != 0
        };
        if up {
            (q + 1) as u32
        } else {
            q as u32
        }
    }
}

/// The displayed bins reach down to bin 0 without a gap: below a displayed bin
/// every multiple of the stride is displayed too.
pub proof fn lemma_displayed_downward(layout: SpectrumLayout, low: int, high: int)
    requires
        layout.displayed(high),
        0 <= low <= high,
        low % (DISPLAY_STRIDE as int) == 0,
    ensures
        layout.displayed(low),
{
    let rate = layout.spec_sample_rate() as int;
    assert(low * rate <= high * rate) by (nonlinear_arith)
        requires
            0 <= low <= high,
            0 <= rate,
    ;
}

/// A bin index times a sample rate stays far below the range of `u128`.
proof fn lemma_scaled_bin_fits(bin: usize, rate: u32)
    ensures
        bin * rate <= 0xffff_ffff_ffff_ffff * 0xffff_ffff,
{
    assert(bin * rate <= 0xffff_ffff_ffff_ffff * 0xffff_ffff) by (nonlinear_arith)
        requires
            0 <= bin <= 0xffff_ffff_ffff_ffff,
            0 <= rate <= 0xffff_ffff,
    ;
}

/// A bin of the single-sided spectrum lies below half the sample rate.
proof fn lemma_quotient_below_half_rate(bin: int, rate: int, size: int)
    requires
        0 <= bin < size / 2,
        0 <= rate,
    ensures
        2 * ((bin * rate) / size) <= rate,
{
    let num = bin * rate;
    let q = num / size;
    let r = num % size;
    assert(num == q * size + r && 0 <= r < size) by {
        vstd::arithmetic::div_mod::lemma_fundamental_div_mod(num, size);
        vstd::arithmetic::div_mod::lemma_mod_bound(num, size);
        assert(size * q == q * size) by (nonlinear_arith);
    }
    assert(2 * q <= rate) by (nonlinear_arith)
        requires
            bin * rate == q * size + r,
            0 <= r,
            0 <= 2 * bin < size,
            0 <= rate,
    ;
}

} // verus!
