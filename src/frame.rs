use crate::frame_data::{LtcFrameData, empty_window, lemma_sync_word_value, push_bit, sync_present};
use vstd::prelude::*;

verus! {

/// The sync word as a 16-bit value, its most recently received bit lowest.
pub const LTC_SYNC_WORD: u16 = 0b0011_1111_1111_1101;

/// A completed, correctly aligned frame: 80 bits have arrived since the
/// register was cleared (modulo 80) and the most recent 16 are the sync word.
pub open spec fn frame_boundary(d: LtcFrameData) -> bool {
    d.position() == 0 && sync_present(d@)
}

/// Assembles LTC frames from a bit stream and counts the samples between
/// sync words, from which the caller infers the frame rate.
pub struct LtcFrame {
    data: LtcFrameData,
    /// Samples received since the last sync word.
    frame_data_sample_count: usize,
}

impl LtcFrame {
    /// The register that the tracker owns.
    pub closed spec fn register(&self) -> LtcFrameData {
        self.data
    }

    /// Samples counted since the last sync word.
    pub closed spec fn sample_count(&self) -> int {
        self.frame_data_sample_count as int
    }

    /// The tracker's register is well formed.
    pub open spec fn wf(&self) -> bool {
        self.register().wf()
    }

    /// Clears the register; the sample count is left as it is.
    pub fn invalidate(&mut self)
        ensures
            final(self).wf(),
            final(self).register()@ == empty_window(),
            final(self).register().position() == 0,
            final(self).sample_count() == old(self).sample_count(),
    {
        self.data.invalidate();
    }

    /// A tracker with an empty register and no samples counted.
    pub fn new_empty() -> (r: LtcFrame)
        ensures
            r.wf(),
            r.register()@ == empty_window(),
            r.register().position() == 0,
            r.sample_count() == 0,
    {
        LtcFrame { data: LtcFrameData::new_empty(), frame_data_sample_count: 0 }
    }

    /// Passes a decoded bit to the register.
    pub fn shift_bit(&mut self, bit: bool)
        requires
            old(self).wf(),
        ensures
            final(self).wf(),
            final(self).register()@ == push_bit(old(self).register()@, bit),
            final(self).register().position() == (old(self).register().position() + 1) % 80,
            final(self).sample_count() == old(self).sample_count(),
    {
        self.data.shift_bit(bit);
    }

    /// A whole frame has been received after the sync word, correctly
    /// aligned.
    pub fn sync_word_valid(&self) -> (r: bool)
        requires
            self.wf(),
        ensures
            r == frame_boundary(self.register()),
    {
        let count = self.data.get_count();
        let word = self.data.get_sync_word();
        proof {
            self.data.lemma_wf();
            lemma_sync_word_value(self.data@, word);
            assert(LTC_SYNC_WORD == 0b0011_1111_1111_1101u16);
        }
        count == 0 && word == LTC_SYNC_WORD
    }

    /// Called once per received sample, before its bit is passed on: a sync
    /// word already in the register here came out of phase, so the register
    /// and the sample count start over; otherwise the sample is counted.
    /// The count must still have room to grow in a `usize`.
    pub fn sample_received(&mut self)
        requires
            old(self).wf(),
            old(self).sample_count() < usize::MAX,
        ensures
            final(self).wf(),
            if sync_present(old(self).register()@) {
                &&& final(self).sample_count() == 0
                &&& final(self).register()@ == empty_window()
                &&& final(self).register().position() == 0
            } else {
                &&& final(self).sample_count() == old(self).sample_count() + 1
                &&& final(self).register() == old(self).register()
            },
    {
        if self.data.next_bit_is_start_of_frame() {
            self.frame_data_sample_count = 0;
            self.invalidate();
        } else {
            self.frame_data_sample_count += 1;
        }
    }

    /// The register and the sample count, but only at a frame boundary.
    pub fn get_data(&mut self) -> (r: Option<(LtcFrameData, usize)>)
        requires
            old(self).wf(),
        ensures
            *final(self) == *old(self),
            r == if frame_boundary(old(self).register()) {
                Some((old(self).register(), old(self).sample_count() as usize))
            } else {
                None::<(LtcFrameData, usize)>
            },
    {
        if self.sync_word_valid() {
            Some((self.data, self.frame_data_sample_count))
        } else {
            None
        }
    }

    /// The register, for reading.
    pub(crate) fn register_ref(&self) -> (r: &LtcFrameData)
        ensures
            *r == self.register(),
    {
        &self.data
    }

    /// Samples counted since the last sync word.
    pub fn get_sample_count(&self) -> (r: usize)
        ensures
            r == self.sample_count(),
    {
        self.frame_data_sample_count
    }
}

/// Two trackers are equal when their registers hold the same bits.
impl PartialEq for LtcFrame {
    fn eq(&self, other: &LtcFrame) -> (r: bool) {
        self.data == other.data
    }
}

impl vstd::std_specs::cmp::PartialEqSpecImpl for LtcFrame {
    open spec fn obeys_eq_spec() -> bool {
        true
    }

    open spec fn eq_spec(&self, other: &LtcFrame) -> bool {
        self.register().raw() == other.register().raw()
    }
}

} // verus!
