//! The precomputed waveform buffer of one voice, read circularly.
use vstd::prelude::*;
use vstd::arithmetic::div_mod::{lemma_add_mod_noop, lemma_mod_self_0, lemma_small_mod};
use vstd::slice::slice_subrange;
use crate::SCALE;

verus! {

/// Rounded quotient `round(a / b)`, rounding halves up.
pub open spec fn spec_round_div(a: int, b: int) -> int
    recommends
        a >= 0,
        b >= 1,
{
    (2 * a + b) / (2 * b)
}

/// Number of samples a waveform buffer holds for a note of frequency
/// `freq_millihz` (thousandths of a hertz) at `rate` samples per second:
/// ten periods of the note, rounded to whole samples, and never below one
/// sample, so that circular reads stay well defined at absurd frequencies.
pub open spec fn spec_snippet_len(rate: int, freq_millihz: int) -> int {
    let rounded = spec_round_div(10000 * rate, freq_millihz);
    if rounded >= 1 {
        rounded
    } else {
        1
    }
}

/// Length of the waveform buffer for one note: `round(10 * rate / freq)`
/// samples (ten periods of the note's fundamental), with a floor of one
/// sample in place of a degenerate empty buffer.
pub fn snippet_len(rate: u32, freq_millihz: u64) -> (len: u64)
    requires
        1 <= rate <= 1000000,
        1000 <= freq_millihz <= 1000000000000,
    ensures
        len == spec_snippet_len(rate as int, freq_millihz as int),
        len >= 1,
{
    let periods: u64 = 10000 * (rate as u64);
    let rounded: u64 = (2 * periods + freq_millihz) / (2 * freq_millihz);
    if rounded >= 1 {
        rounded
    } else {
        1
    }
}

/// A fixed single-cycle-train waveform with a circular read cursor. The
/// samples are precomputed once and never change; only the cursor advances.
pub struct Snippet {
    pub data: Vec<i64>,
    pub index: usize,
}

impl Snippet {
    /// The buffer is never empty, the cursor stays inside it, and every
    /// sample is a fixed-point amplitude within `[-SCALE, SCALE]`.
    pub open spec fn wf(self) -> bool {
        &&& self.data@.len() >= 1
        &&& self.index < self.data@.len()
        &&& forall|i: int|
            0 <= i < self.data@.len() ==> -(SCALE as int) <= #[trigger] self.data@[i] <= SCALE as int
    }

    /// The sample the cursor reaches after `j` steps, wrapping circularly.
    pub open spec fn sample_at(self, j: int) -> int
        recommends
            self.wf(),
            j >= 0,
    {
        self.data@[(self.index + j) % (self.data@.len() as int)] as int
    }

    /// Wraps precomputed samples into a snippet with the cursor at the start.
    /// An empty sample vector is replaced by one silent sample, so that the
    /// wrap-around arithmetic never divides by zero.
    pub fn from_samples(samples: Vec<i64>) -> (s: Snippet)
        requires
            forall|i: int|
                0 <= i < samples@.len() ==> -(SCALE as int) <= #[trigger] samples@[i] <= SCALE as int,
        ensures
            s.wf(),
            s.index == 0,
            samples@.len() >= 1 ==> s.data@ == samples@,
            samples@.len() == 0 ==> s.data@ == seq![0i64],
    {
        let mut data = samples;
        if data.len() == 0 {
            data.push(0);
            proof {
                assert(data@ =~= seq![0i64]);
            }
        }
        Snippet { data, index: 0 }
    }

    /// Reads `len` samples starting at the cursor and advances the cursor
    /// circularly by `len`. The result is one logical stream of exactly `len`
    /// samples split in at most two contiguous slices: the part before the
    /// buffer's end, then the part that wrapped around to its start. The
    /// second slice is empty whenever no wrap occurs, and is never the only
    /// non-empty one.
    pub fn read(&mut self, len: usize) -> (r: (&[i64], &[i64]))
        requires
            old(self).wf(),
            len <= old(self).data@.len(),
        ensures
            final(self).wf(),
            final(self).data@ == old(self).data@,
            final(self).index as int == (old(self).index + len) % (old(self).data@.len() as int),
            r.0@.len() + r.1@.len() == len,
            r.1@.len() > 0 ==> r.0@.len() > 0,
            forall|j: int|
                0 <= j < len ==> (r.0@ + r.1@)[j] == old(self).sample_at(j),
    {
        let n = self.data.len();
        let start = self.index;
        let remaining = n - start;
        if len >= remaining {
            // the read wraps: tail of the buffer, then its head
            proof {
                lemma_small_mod(((start + len) - n) as nat, n as nat);
                lemma_add_mod_noop((start + len - n) as int, n as int, n as int);
                lemma_mod_self_0(n as int);
                lemma_small_mod(((start + len) - n) as nat, n as nat);
            }
            self.index = len - remaining;
            let front = slice_subrange(self.data.as_slice(), start, n);
            let back = slice_subrange(self.data.as_slice(), 0, len - remaining);
            proof {
                let full = front@ + back@;
                assert forall|j: int| 0 <= j < len implies full[j] == old(self).sample_at(j) by {
                    if start + j < n {
                        lemma_small_mod((start + j) as nat, n as nat);
                    } else {
                        lemma_small_mod(((start + j) - n) as nat, n as nat);
                        lemma_add_mod_noop((start + j - n) as int, n as int, n as int);
                    }
                }
            }
            (front, back)
        } else {
            proof {
                lemma_small_mod((start + len) as nat, n as nat);
            }
            self.index = start + len;
            let front = slice_subrange(self.data.as_slice(), start, start + len);
            let back = slice_subrange(self.data.as_slice(), 0, 0);
            proof {
                let full = front@ + back@;
                assert forall|j: int| 0 <= j < len implies full[j] == old(self).sample_at(j) by {
                    lemma_small_mod((start + j) as nat, n as nat);
                }
            }
            (front, back)
        }
    }
}

/// Reading a full buffer's worth of samples brings the cursor back to where
/// it started: one whole pass over the waveform is a closed loop.
pub proof fn lemma_full_read_returns_cursor(cursor: int, len: int)
    requires
        0 <= cursor < len,
    ensures
        (cursor + len) % len == cursor,
{
    lemma_add_mod_noop(cursor, len, len);
    lemma_mod_self_0(len);
    lemma_small_mod(cursor as nat, len as nat);
}

} // verus!
