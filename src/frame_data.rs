use crate::bit_ops::{bit_of, bit_range, bit_set, put_bit};
use crate::field_table::{
    field_value, frame_indices, frames_table, hour_indices, hours_table, lemma_field_tables_valid,
    lemma_field_value_bounds, minute_indices, minutes_table, second_indices, seconds_table,
    valid_table, within_register, BitIndex,
};
use vstd::prelude::*;

verus! {

/// Bits kept by the register: the low 80 of a `u128`.
pub const REGISTER_MASK: u128 = 0xFF_FF_FF_FF_FF_FF_FF_FF_FF_FF;

/// The LTC sync word as it stands in the low 16 bits of the register once
/// its last bit has arrived.
pub const SYNC_WORD: u128 = 0b0011_1111_1111_1101;

/// Selects the 16 bits that the sync word occupies.
pub const SYNC_MASK: u128 = 0xFFFF;

/// A register that has received nothing since it was cleared.
pub open spec fn empty_window() -> Seq<bool> {
    Seq::new(80, |i: int| false)
}

/// The window after one more bit: the new bit in front, the oldest dropped.
pub open spec fn push_bit(w: Seq<bool>, bit: bool) -> Seq<bool> {
    seq![bit] + w.take(79)
}

/// The window after receiving the bits of `s` in order, starting from `w`.
pub open spec fn window_after(w: Seq<bool>, s: Seq<bool>) -> Seq<bool>
    decreases s.len(),
{
    if s.len() == 0 {
        w
    } else {
        push_bit(window_after(w, s.drop_last()), s.last())
    }
}

/// Sliding window: after the bits of `s` arrive, the register holds the 80
/// most recent bits of the stream, newest first; older bits are discarded.
/// While fewer than 80 have arrived, the earlier contents follow, shifted
/// along by as many places as bits arrived.
pub proof fn lemma_sliding_window(w: Seq<bool>, s: Seq<bool>)
    requires
        w.len() == 80,
    ensures
        window_after(w, s).len() == 80,
        forall|i: int|
            0 <= i < 80 ==> #[trigger] window_after(w, s)[i] == if i < s.len() {
                s[s.len() - 1 - i]
            } else {
                w[i - s.len()]
            },
    decreases s.len(),
{
    if s.len() > 0 {
        let s0 = s.drop_last();
        lemma_sliding_window(w, s0);
        let prev = window_after(w, s0);
        assert forall|i: int| 0 <= i < 80 implies #[trigger] window_after(w, s)[i] == if i
            < s.len() {
            s[s.len() - 1 - i]
        } else {
            w[i - s.len()]
        } by {
            if i > 0 {
                assert(window_after(w, s)[i] == prev[i - 1]);
                if i < s.len() {
                    assert(s0[s0.len() - 1 - (i - 1)] == s[s.len() - 1 - i]);
                }
            }
        }
    }
}

/// Round trip: once the 80 bits of a frame `f` (in LTC order) have arrived,
/// the window holds exactly the frame, reversed, whatever it held before, so
/// every field decodes to the value that the frame encodes.
pub proof fn lemma_frame_round_trip(w: Seq<bool>, f: Seq<bool>)
    requires
        w.len() == 80,
        f.len() == 80,
    ensures
        window_after(w, f) == f.reverse(),
{
    lemma_sliding_window(w, f);
    assert(window_after(w, f) =~= f.reverse());
}

/// A cleared register decodes to 0 in every field.
pub proof fn lemma_cleared_field_zero(t: Seq<BitIndex>)
    requires
        within_register(t),
    ensures
        field_value(empty_window(), t) == 0,
    decreases t.len(),
{
    if t.len() > 0 {
        let t0 = t.drop_last();
        assert forall|m: int| 0 <= m < t0.len() implies #[trigger] t0[m].index < 80 by {
            assert(t0[m] == t[m]);
        }
        lemma_cleared_field_zero(t0);
        assert(t.last() == t[t.len() - 1]);
        assert(t[t.len() - 1].index < 80);
    }
}

/// The sync word, most recently received bit first.
pub open spec fn sync_word_bits() -> Seq<bool> {
    seq![
        true,
        false,
        true,
        true,
        true,
        true,
        true,
        true,
        true,
        true,
        true,
        true,
        true,
        true,
        false,
        false,
    ]
}

/// The 16 most recent bits of the window spell the sync word.
pub open spec fn sync_present(w: Seq<bool>) -> bool {
    w.take(16) == sync_word_bits()
}

/// The 80 most recently received bits of an LTC stream, and how many bits
/// (modulo 80) have arrived since the register was last cleared.
#[derive(Clone, Copy, Debug)]
pub struct LtcFrameData {
    data: u128,
    count: u8,
}

impl View for LtcFrameData {
    type V = Seq<bool>;

    /// Bit `i` of the view is the bit received `i` insertions ago.
    closed spec fn view(&self) -> Seq<bool> {
        Seq::new(80, |i: int| bit_set(self.data, i as u128))
    }
}

/// Whether bit `i` of a 16-bit word is set.
pub open spec fn word_bit(v: u16, i: u16) -> bool {
    (v >> i) & 1 == 1
}

proof fn lemma_shift_in(old: u128, bit: bool, new: u128, i: u128)
    by (bit_vector)
    requires
        i < 80,
        new == if bit {
            ((old << 1) & REGISTER_MASK) | (1u128 << 0u128)
        } else {
            ((old << 1) & REGISTER_MASK) & !(1u128 << 0u128)
        },
    ensures
        new >> 80 == 0,
        bit_set(new, i) == if i == 0 {
            bit
        } else {
            bit_set(old, (i - 1) as u128)
        },
{
}

proof fn lemma_sync_bits(data: u128)
    by (bit_vector)
    ensures
        (data & SYNC_MASK == SYNC_WORD) == (bit_set(data, 0) && !bit_set(data, 1) && bit_set(
            data,
            2,
        ) && bit_set(data, 3) && bit_set(data, 4) && bit_set(data, 5) && bit_set(data, 6)
            && bit_set(data, 7) && bit_set(data, 8) && bit_set(data, 9) && bit_set(data, 10)
            && bit_set(data, 11) && bit_set(data, 12) && bit_set(data, 13) && !bit_set(data, 14)
            && !bit_set(data, 15)),
{
}

proof fn lemma_low_half(data: u128, i: u16)
    by (bit_vector)
    requires
        i < 16,
    ensures
        word_bit((data & SYNC_MASK) as u16, i) == bit_set(data, i as u128),
{
}

proof fn lemma_word_bits(v: u16)
    by (bit_vector)
    ensures
        (v == 0b0011_1111_1111_1101u16) == (word_bit(v, 0) && !word_bit(v, 1) && word_bit(v, 2)
            && word_bit(v, 3) && word_bit(v, 4) && word_bit(v, 5) && word_bit(v, 6) && word_bit(
            v,
            7,
        ) && word_bit(v, 8) && word_bit(v, 9) && word_bit(v, 10) && word_bit(v, 11) && word_bit(
            v,
            12,
        ) && word_bit(v, 13) && !word_bit(v, 14) && !word_bit(v, 15)),
{
}

/// A 16-bit word that holds the 16 most recent bits of a window equals the
/// sync word exactly when the window ends in the sync word.
pub proof fn lemma_sync_word_value(w: Seq<bool>, v: u16)
    requires
        w.len() == 80,
        forall|i: u16| i < 16 ==> #[trigger] word_bit(v, i) == w[i as int],
    ensures
        (v == 0b0011_1111_1111_1101u16) == sync_present(w),
{
    lemma_word_bits(v);
    assert(word_bit(v, 0) == w[0]);
    assert(word_bit(v, 1) == w[1]);
    assert(word_bit(v, 2) == w[2]);
    assert(word_bit(v, 3) == w[3]);
    assert(word_bit(v, 4) == w[4]);
    assert(word_bit(v, 5) == w[5]);
    assert(word_bit(v, 6) == w[6]);
    assert(word_bit(v, 7) == w[7]);
    assert(word_bit(v, 8) == w[8]);
    assert(word_bit(v, 9) == w[9]);
    assert(word_bit(v, 10) == w[10]);
    assert(word_bit(v, 11) == w[11]);
    assert(word_bit(v, 12) == w[12]);
    assert(word_bit(v, 13) == w[13]);
    assert(word_bit(v, 14) == w[14]);
    assert(word_bit(v, 15) == w[15]);
    if v == 0b0011_1111_1111_1101u16 {
        assert(w.take(16) =~= sync_word_bits());
    } else if sync_present(w) {
        assert forall|i: int| 0 <= i < 16 implies #[trigger] w[i] == sync_word_bits()[i] by {
            assert(w.take(16)[i] == w[i]);
        }
    }
}

/// Whether bit `j` of a small number is set.
pub open spec fn nibble_bit(v: u8, j: u8) -> bool {
    (v >> j) & 1 == 1
}

proof fn lemma_nibble(v: u128, lo: u128, r: u128, j: u128)
    by (bit_vector)
    requires
        lo <= 76,
        j < 4,
        r == (v & ((!0u128 >> 1u128) >> ((127 - (lo + 4)) as u128))) >> lo,
    ensures
        r < 16,
        nibble_bit(r as u8, j as u8) == bit_set(v, (lo + j) as u128),
{
}

proof fn lemma_zero_bits(i: u128)
    by (bit_vector)
    ensures
        !bit_set(0, i),
{
}

impl LtcFrameData {
    /// The register holds only the low 80 bits and counts below 80.
    pub closed spec fn wf(&self) -> bool {
        &&& self.data >> 80 == 0
        &&& self.count < 80
    }

    /// A well-formed register has a window of 80 bits and a position in
    /// `[0, 79]`.
    pub proof fn lemma_wf(&self)
        requires
            self.wf(),
        ensures
            self@.len() == 80,
            0 <= self.position() < 80,
    {
    }

    /// The register as one number, the most recent bit lowest.
    pub closed spec fn raw(&self) -> u128 {
        self.data
    }

    /// Bits received since the register was last cleared, modulo 80.
    pub closed spec fn position(&self) -> int {
        self.count as int
    }

    /// Clears the register and its count; used when out-of-phase data is
    /// received.
    pub fn invalidate(&mut self)
        ensures
            final(self).wf(),
            final(self)@ == empty_window(),
            final(self).position() == 0,
    {
        self.data = 0;
        self.count = 0;
        proof {
            assert forall|i: int| 0 <= i < 80 implies #[trigger] self@[i] == false by {
                lemma_zero_bits(i as u128);
            }
            assert(self@ =~= empty_window());
            assert(0u128 >> 80u128 == 0) by (bit_vector);
        }
    }

    /// An empty register, ready to receive a stream.
    pub fn new_empty() -> (r: LtcFrameData)
        ensures
            r.wf(),
            r@ == empty_window(),
            r.position() == 0,
    {
        let mut r = LtcFrameData { data: 0, count: 0 };
        r.invalidate();
        r
    }

    /// Appends `bit` as the most recent bit, dropping the oldest one.
    pub fn shift_bit(&mut self, bit: bool)
        requires
            old(self).wf(),
        ensures
            final(self).wf(),
            final(self)@ == push_bit(old(self)@, bit),
            final(self).position() == (old(self).position() + 1) % 80,
    {
        let ghost before = self.data;
        self.data <<= 1;
        self.data &= REGISTER_MASK;
        put_bit(&mut self.data, 0, bit);
        self.count += 1;
        self.count %= 80;
        proof {
            assert forall|i: int| 0 <= i < 80 implies #[trigger] self@[i] == push_bit(
                old(self)@,
                bit,
            )[i] by {
                lemma_shift_in(before, bit, self.data, i as u128);
            }
            lemma_shift_in(before, bit, self.data, 0);
            assert(self@ =~= push_bit(old(self)@, bit));
        }
    }

    /// Weighted sum of the bits that `index` names.
    pub fn get_bits(&self, index: &[BitIndex]) -> (r: u8)
        requires
            self.wf(),
            valid_table(index@),
        ensures
            r == field_value(self@, index@),
    {
        let mut val: u8 = 0;
        let mut k: usize = 0;
        while k < index.len()
            invariant
                self.wf(),
                valid_table(index@),
                0 <= k <= index.len(),
                val == field_value(self@, index@.take(k as int)),
            decreases index.len() - k,
        {
            let entry = index[k];
            let ghost t = index@.take(k as int + 1);
            proof {
                assert(t.drop_last() =~= index@.take(k as int));
                assert(t.last() == index@[k as int]);
                assert(index@[k as int].index < 80);
                lemma_field_value_bounds(self@, t, 0);
                lemma_field_value_bounds(self@, index@, k as int + 1);
            }
            if bit_of(self.data, entry.index) {
                val += entry.weight;
            }
            k += 1;
        }
        assert(index@.take(index.len() as int) =~= index@);
        val
    }

    /// The sync word stands in the 16 most recent bits, whatever the
    /// alignment: this sees a sync word arriving where it was not expected.
    pub fn next_bit_is_start_of_frame(&self) -> (r: bool)
        ensures
            r == sync_present(self@),
    {
        proof {
            lemma_sync_bits(self.data);
            if (self.data & SYNC_MASK == SYNC_WORD) {
                assert(self@.take(16) =~= sync_word_bits());
            } else if self@.take(16) == sync_word_bits() {
                assert forall|i: int| 0 <= i < 16 implies #[trigger] self@[i] == sync_word_bits()[i] by {
                    assert(self@.take(16)[i] == self@[i]);
                }
            }
        }
        (self.data & SYNC_MASK) == SYNC_WORD
    }

    /// Frames of the timecode in the window.
    pub fn get_frames(&self) -> (r: u8)
        requires
            self.wf(),
        ensures
            r == field_value(self@, frames_table()),
    {
        proof {
            lemma_field_tables_valid();
        }
        self.get_bits(&frame_indices())
    }

    /// Seconds of the timecode in the window.
    pub fn get_seconds(&self) -> (r: u8)
        requires
            self.wf(),
        ensures
            r == field_value(self@, seconds_table()),
    {
        proof {
            lemma_field_tables_valid();
        }
        self.get_bits(&second_indices())
    }

    /// Minutes of the timecode in the window.
    pub fn get_minutes(&self) -> (r: u8)
        requires
            self.wf(),
        ensures
            r == field_value(self@, minutes_table()),
    {
        proof {
            lemma_field_tables_valid();
        }
        self.get_bits(&minute_indices())
    }

    /// Hours of the timecode in the window.
    pub fn get_hours(&self) -> (r: u8)
        requires
            self.wf(),
        ensures
            r == field_value(self@, hours_table()),
    {
        proof {
            lemma_field_tables_valid();
        }
        self.get_bits(&hour_indices())
    }

    /// The 16 most recent bits, the most recent one lowest.
    pub fn get_sync_word(&self) -> (r: u16)
        ensures
            forall|i: u16| i < 16 ==> #[trigger] word_bit(r, i) == self@[i as int],
    {
        let r = (self.data & SYNC_MASK) as u16;
        proof {
            assert forall|i: u16| i < 16 implies #[trigger] word_bit(r, i) == self@[i as int] by {
                lemma_low_half(self.data, i);
            }
        }
        r
    }

    /// Bits received since the register was last cleared, modulo 80.
    pub fn get_count(&self) -> (r: u8)
        ensures
            r == self.position(),
    {
        self.count
    }

    /// The four bits received `lo` to `lo + 3` insertions ago, as a number
    /// whose lowest bit is the most recent of them.
    pub fn nibble(&self, lo: u8) -> (r: u8)
        requires
            self.wf(),
            lo <= 76,
        ensures
            r < 16,
            forall|j: u8| j < 4 ==> #[trigger] nibble_bit(r, j) == self@[lo + j],
    {
        let v = bit_range(self.data, lo, lo + 4);
        proof {
            assert forall|j: u8| j < 4 implies #[trigger] nibble_bit(v as u8, j) == self@[lo + j] by {
                lemma_nibble(self.data, lo as u128, v, j as u128);
            }
            lemma_nibble(self.data, lo as u128, v, 0);
        }
        v as u8
    }
}

/// Two registers are equal when they hold the same bits, whatever their
/// positions.
impl PartialEq for LtcFrameData {
    fn eq(&self, other: &LtcFrameData) -> (r: bool) {
        self.data == other.data
    }
}

impl vstd::std_specs::cmp::PartialEqSpecImpl for LtcFrameData {
    open spec fn obeys_eq_spec() -> bool {
        true
    }

    open spec fn eq_spec(&self, other: &LtcFrameData) -> bool {
        self.raw() == other.raw()
    }
}

} // verus!
