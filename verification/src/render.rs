//! The text of one rendered frame: a screen reset followed by one line per
//! displayed bin.

use vstd::prelude::*;
use vstd::string::StringExecFns;
use crate::layout::SpectrumLayout;
use crate::text::{
    bar_char, decimal, lemma_decimal_len, push_bar, push_right_aligned_decimal, repeated,
    right_aligned,
};
use crate::{DISPLAY_CUTOFF_HZ, LABEL_WIDTH};

verus! {

/// The escape sequences that clear the terminal and move the cursor to its
/// top left corner.
pub open spec fn screen_reset() -> Seq<char> {
    seq!['\x1B', '[', '2', 'J', '\x1B', '[', 'H']
}

/// What separates a line's frequency from its bar.
pub open spec fn label_suffix() -> Seq<char> {
    seq!['H', 'z', ':', ' ']
}

/// The end of a line.
pub open spec fn line_end() -> Seq<char> {
    seq!['\n']
}

impl SpectrumLayout {
    /// The line drawn for bin `bin` with a bar of `bar` units: the frequency
    /// in whole hertz, right-aligned in its field, then `Hz: `, then the bar.
    /// The line carries no line end.
    pub open spec fn line_text(&self, bin: nat, bar: nat) -> Seq<char> {
        right_aligned(decimal(self.label_of(bin)), LABEL_WIDTH as nat) + label_suffix() + repeated(
            bar_char(),
            bar,
        )
    }

    /// The lines of the displayed bins among the first `upto` bins, lowest bin
    /// first, each followed by a line end. `bars[k]` is the bar length of bin
    /// `k`.
    pub open spec fn lines_text(&self, bars: Seq<usize>, upto: nat) -> Seq<char>
        decreases upto,
    {
        if upto == 0 {
            Seq::empty()
        } else {
            let bin = (upto - 1) as nat;
            let before = self.lines_text(bars, bin);
            if self.displayed(bin as int) {
                before + self.line_text(bin, bars[bin as int] as nat) + line_end()
            } else {
                before
            }
        }
    }

    /// A whole frame: the screen reset on a line of its own, then the lines of
    /// all displayed bins.
    pub open spec fn frame_text(&self, bars: Seq<usize>) -> Seq<char> {
        screen_reset() + line_end() + self.lines_text(bars, self.bins())
    }

    /// Appends the line of bin `bin`, without a line end, to `out`.
    fn push_line(&self, out: &mut String, bin: usize, bar: usize)
        requires
            bin < self.bins(),
        ensures
            final(out)@ == old(out)@ + self.line_text(bin as nat, bar as nat),
    {
        proof {
            reveal_strlit("Hz: ");
        }
        push_right_aligned_decimal(out, self.label(bin), LABEL_WIDTH);
        out.append("Hz: ");
        push_bar(out, bar);
        assert(out@ =~= old(out)@ + self.line_text(bin as nat, bar as nat));
    }

    /// The line drawn for bin `bin` with a bar of `bar` units.
    ///
    /// The bar is drawn at its full length however long it is; nothing caps
    /// it at the length of a full-scale bar.
    pub fn render_line(&self, bin: usize, bar: usize) -> (line: String)
        requires
            bin < self.bins(),
        ensures
            line@ == self.line_text(bin as nat, bar as nat),
            bar == 0 ==> line@ == right_aligned(decimal(self.label_of(bin as nat)), LABEL_WIDTH as nat)
                + label_suffix(),
            self.displayed(bin as int) ==> line@.len() == LABEL_WIDTH + label_suffix().len() + bar,
    {
        let mut line = String::new();
        self.push_line(&mut line, bin, bar);
        proof {
            assert(repeated(bar_char(), 0) =~= Seq::<char>::empty());
            if self.displayed(bin as int) {
                lemma_displayed_label_fits(*self, bin as nat, bar as nat);
            }
        }
        line
    }

    /// The text that replaces the previous frame on the terminal.
    ///
    /// `bars[k]` is the bar length of bin `k`; the lengths of bins that are
    /// not displayed are ignored.
    pub fn render_frame(&self, bars: &[usize]) -> (frame: String)
        requires
            bars@.len() == self.bins(),
        ensures
            frame@ == self.frame_text(bars@),
    {
        proof {
            reveal_strlit("\x1B[2J\x1B[H\n");
        }
        let mut frame = String::new();
        frame.append("\x1B[2J\x1B[H\n");
        assert(frame@ =~= screen_reset() + line_end());
        let count = self.bin_count();
        let mut bin: usize = 0;
        while bin < count
            invariant
                bin <= count,
                count == self.bins(),
                bars@.len() == count,
                frame@ == screen_reset() + line_end() + self.lines_text(bars@, bin as nat),
            decreases count - bin,
        {
            if self.is_displayed(bin) {
                self.push_line(&mut frame, bin, bars[bin]);
                frame.append("\n");
                proof {
                    reveal_strlit("\n");
                    assert("\n"@ =~= line_end());
                }
            }
            assert(frame@ =~= screen_reset() + line_end() + self.lines_text(
                bars@,
                (bin + 1) as nat,
            ));
            bin += 1;
        }
        frame
    }
}

/// The frequency of a displayed bin never needs more than its field, so every
/// line of a frame has the same width before its bar.
pub proof fn lemma_displayed_label_fits(layout: SpectrumLayout, bin: nat, bar: nat)
    requires
        layout.displayed(bin as int),
    ensures
        layout.label_of(bin) <= DISPLAY_CUTOFF_HZ,
        layout.line_text(bin, bar).len() == LABEL_WIDTH + label_suffix().len() + bar,
{
    let num = bin * layout.spec_sample_rate() as nat;
    let den = layout.spec_fft_size() as nat;
    let q = num / den;
    assert(q < DISPLAY_CUTOFF_HZ) by {
        vstd::arithmetic::div_mod::lemma_fundamental_div_mod(num as int, den as int);
        vstd::arithmetic::div_mod::lemma_mod_bound(num as int, den as int);
        let r = num % den;
        assert(q < 2000) by (nonlinear_arith)
            requires
                num == den * q + r,
                0 <= r,
                num < 2000 * den,
                den > 0,
        ;
    }
    lemma_decimal_len(layout.label_of(bin));
}

} // verus!
