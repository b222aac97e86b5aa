use ltc_decode::field_table::{
    frame_indices, hour_indices, minute_indices, second_indices, BitIndex,
};
use ltc_decode::frame::{LtcFrame, LTC_SYNC_WORD};
use ltc_decode::frame_data::LtcFrameData;

/// LTC bits 64..80 carry the sync word.
const SYNC_BITS: [bool; 16] = [
    false, false, true, true, true, true, true, true, true, true, true, true, true, true, false,
    true,
];

/// An 80-bit frame in LTC order encoding the given BCD fields.
fn frame_bits(hours: u8, minutes: u8, seconds: u8, frames: u8) -> Vec<bool> {
    let mut bits = vec![false; 80];
    let mut put = |start_units: usize, start_tens: usize, value: u8, tens_bits: usize| {
        let units = value % 10;
        let tens = value / 10;
        for i in 0..4 {
            bits[start_units + i] = (units >> i) & 1 == 1;
        }
        for i in 0..tens_bits {
            bits[start_tens + i] = (tens >> i) & 1 == 1;
        }
    };
    put(0, 8, frames, 2);
    put(16, 24, seconds, 3);
    put(32, 40, minutes, 3);
    put(48, 56, hours, 2);
    bits[64..80].copy_from_slice(&SYNC_BITS);
    bits
}

fn register_from(bits: &[bool]) -> LtcFrameData {
    let mut d = LtcFrameData::new_empty();
    for &b in bits {
        d.shift_bit(b);
    }
    d
}

/// Feeds one frame to the tracker, `samples_per_bit` samples for each bit,
/// and returns what `get_data` gave after each bit.
fn feed(
    tracker: &mut LtcFrame,
    bits: &[bool],
    samples_per_bit: usize,
) -> Vec<Option<(LtcFrameData, usize)>> {
    let mut out = Vec::new();
    for &b in bits {
        for _ in 0..samples_per_bit {
            tracker.sample_received();
        }
        tracker.shift_bit(b);
        out.push(tracker.get_data());
    }
    out
}

#[test]
fn bit_index_reverses_position() {
    let b = BitIndex::new(0, 1);
    assert_eq!(b.index, 79);
    assert_eq!(b.weight, 1);
    let b = BitIndex::new(57, 20);
    assert_eq!(b.index, 22);
    assert_eq!(b.weight, 20);
}

#[test]
fn tables_have_bcd_weights() {
    let w: Vec<u8> = frame_indices().iter().map(|b| b.weight).collect();
    assert_eq!(w, vec![1, 2, 4, 8, 10, 20]);
    let w: Vec<u8> = second_indices().iter().map(|b| b.weight).collect();
    assert_eq!(w, vec![1, 2, 4, 8, 10, 20, 40]);
    let w: Vec<u8> = minute_indices().iter().map(|b| b.weight).collect();
    assert_eq!(w, vec![1, 2, 4, 8, 10, 20, 40]);
    let w: Vec<u8> = hour_indices().iter().map(|b| b.weight).collect();
    assert_eq!(w, vec![1, 2, 4, 8, 10, 20]);
    let i: Vec<u8> = hour_indices().iter().map(|b| b.index).collect();
    assert_eq!(i, vec![31, 30, 29, 28, 23, 22]);
}

#[test]
fn new_register_is_empty() {
    let d = LtcFrameData::new_empty();
    assert_eq!(d.get_count(), 0);
    assert_eq!(d.get_sync_word(), 0);
    assert!(!d.next_bit_is_start_of_frame());
    assert_eq!(d.get_frames(), 0);
    assert_eq!(d.get_hours(), 0);
}

#[test]
fn window_keeps_most_recent_bits() {
    let mut d = LtcFrameData::new_empty();
    d.shift_bit(true);
    assert_eq!(d.get_sync_word(), 0b1);
    d.shift_bit(false);
    d.shift_bit(true);
    assert_eq!(d.get_sync_word(), 0b101);
    // 80 zeros push everything out.
    for _ in 0..80 {
        d.shift_bit(false);
    }
    assert_eq!(d.get_sync_word(), 0);
    assert_eq!(d.get_frames(), 0);
}

#[test]
fn oldest_bit_is_discarded() {
    // A set bit at LTC position 0 is the frames' unit bit once 80 bits are in.
    let mut bits = vec![false; 80];
    bits[0] = true;
    let mut d = register_from(&bits);
    assert_eq!(d.get_frames(), 1);
    d.shift_bit(false);
    assert_eq!(d.get_frames(), 0);
}

#[test]
fn position_wraps_at_eighty() {
    let mut d = LtcFrameData::new_empty();
    for i in 1..=200u32 {
        d.shift_bit(i % 3 == 0);
        assert_eq!(d.get_count() as u32, i % 80);
    }
}

#[test]
fn flipping_a_bit_outside_a_field_keeps_it() {
    let base = frame_bits(12, 34, 56, 21);
    let d = register_from(&base);
    assert_eq!(d.get_frames(), 21);
    // LTC bit 4 belongs to no field table.
    let mut flipped = base.clone();
    flipped[4] = !flipped[4];
    let e = register_from(&flipped);
    assert_eq!(e.get_frames(), 21);
    assert_eq!(e.get_seconds(), 56);
    assert_eq!(e.get_minutes(), 34);
    assert_eq!(e.get_hours(), 12);
}

#[test]
fn flipping_a_bit_inside_a_field_moves_it_by_its_weight() {
    let base = frame_bits(12, 34, 56, 21);
    // Seconds' bit of weight 40 (LTC bit 26) is set in 56 (50 = 10 + 40): clearing it takes 40.
    let mut flipped = base.clone();
    flipped[26] = !flipped[26];
    assert_eq!(register_from(&flipped).get_seconds(), 16);
    // Minutes' bit of weight 2 (LTC bit 33) is clear in 34: setting it adds 2.
    let mut flipped = base.clone();
    flipped[33] = !flipped[33];
    assert_eq!(register_from(&flipped).get_minutes(), 36);
    assert_eq!(register_from(&flipped).get_seconds(), 56);
}

#[test]
fn all_field_bits_set_give_maximum() {
    let mut bits = vec![true; 80];
    bits[64..80].copy_from_slice(&SYNC_BITS);
    let d = register_from(&bits);
    assert_eq!(d.get_frames(), 45);
    assert_eq!(d.get_seconds(), 85);
    assert_eq!(d.get_minutes(), 85);
    assert_eq!(d.get_hours(), 45);
}

#[test]
fn sync_word_seen_at_any_alignment() {
    let mut d = LtcFrameData::new_empty();
    for _ in 0..7 {
        d.shift_bit(false);
    }
    for &b in SYNC_BITS.iter() {
        d.shift_bit(b);
    }
    assert!(d.next_bit_is_start_of_frame());
    assert_eq!(d.get_sync_word(), LTC_SYNC_WORD);
    assert_eq!(d.get_count(), 23);
}

#[test]
fn invalidate_clears_fields_and_count() {
    let mut d = register_from(&frame_bits(23, 59, 59, 29));
    d.shift_bit(true);
    d.invalidate();
    assert_eq!(d.get_count(), 0);
    assert_eq!(d.get_frames(), 0);
    assert_eq!(d.get_seconds(), 0);
    assert_eq!(d.get_minutes(), 0);
    assert_eq!(d.get_hours(), 0);
    assert_eq!(d.get_sync_word(), 0);
}

#[test]
fn round_trip_of_one_frame() {
    let bits = frame_bits(1, 2, 3, 4);
    let mut tracker = LtcFrame::new_empty();
    let results = feed(&mut tracker, &bits, 1);
    assert!(results[..79].iter().all(|r| r.is_none()));
    let (data, count) = results[79].expect("a frame after the 80th bit");
    assert_eq!(data.get_hours(), 1);
    assert_eq!(data.get_minutes(), 2);
    assert_eq!(data.get_seconds(), 3);
    assert_eq!(data.get_frames(), 4);
    assert_eq!(count, 80);
    assert!(tracker.sync_word_valid());
}

#[test]
fn frame_only_at_aligned_boundary() {
    let bits = frame_bits(10, 20, 30, 15);
    let d = register_from(&bits[..79]);
    let mut tracker = LtcFrame::new_empty();
    for &b in &bits[..79] {
        tracker.shift_bit(b);
    }
    assert!(!tracker.sync_word_valid());
    assert!(tracker.get_data().is_none());
    assert_eq!(d.get_count(), 79);
    tracker.shift_bit(bits[79]);
    assert!(tracker.sync_word_valid());
    assert!(tracker.get_data().is_some());
}

fn sample_count_at_second_frame(samples_per_bit: usize) -> usize {
    let first = frame_bits(0, 0, 0, 1);
    let second = frame_bits(0, 0, 0, 2);
    let mut tracker = LtcFrame::new_empty();
    let r = feed(&mut tracker, &first, samples_per_bit);
    assert_eq!(r[79].map(|x| x.1), Some(80 * samples_per_bit));
    let r = feed(&mut tracker, &second, samples_per_bit);
    assert!(r[..79].iter().all(|x| x.is_none()));
    let (data, count) = r[79].expect("second frame");
    assert_eq!(data.get_frames(), 2);
    count
}

#[test]
fn sample_count_at_24_fps() {
    // 48 kHz: 2000 samples a frame; the first one sees the sync word and
    // restarts the count.
    assert_eq!(sample_count_at_second_frame(25), 1999);
}

#[test]
fn sample_count_at_25_fps() {
    assert_eq!(sample_count_at_second_frame(24), 1919);
}

#[test]
fn sample_count_at_30_fps() {
    assert_eq!(sample_count_at_second_frame(20), 1599);
}

#[test]
fn samples_without_bits_are_counted() {
    let mut tracker = LtcFrame::new_empty();
    for _ in 0..500 {
        tracker.sample_received();
    }
    assert_eq!(tracker.get_sample_count(), 500);
    assert!(tracker.get_data().is_none());
}

#[test]
fn out_of_phase_sync_resets() {
    let mut tracker = LtcFrame::new_empty();
    // 30 bits of data, then a sync word 34 bits too early.
    for i in 0..30 {
        tracker.sample_received();
        tracker.shift_bit(i % 4 == 1);
        assert!(tracker.get_data().is_none());
    }
    for &b in SYNC_BITS.iter() {
        tracker.sample_received();
        tracker.shift_bit(b);
        assert!(tracker.get_data().is_none());
    }
    assert_eq!(tracker.get_sample_count(), 46);
    tracker.sample_received();
    assert_eq!(tracker.get_sample_count(), 0);
    assert!(tracker.get_data().is_none());
    // The register was cleared: a whole frame from here is reported.
    let bits = frame_bits(5, 6, 7, 8);
    let r = feed(&mut tracker, &bits[..], 1);
    assert!(r[..79].iter().all(|x| x.is_none()));
    let (data, count) = r[79].expect("frame after resync");
    assert_eq!(
        (data.get_hours(), data.get_minutes(), data.get_seconds(), data.get_frames()),
        (5, 6, 7, 8)
    );
    assert_eq!(count, 80);
}

#[test]
fn invalidate_keeps_sample_count() {
    let mut tracker = LtcFrame::new_empty();
    tracker.sample_received();
    tracker.sample_received();
    tracker.shift_bit(true);
    tracker.invalidate();
    assert_eq!(tracker.get_sample_count(), 2);
    assert!(!tracker.sync_word_valid());
}

#[test]
fn display_string_is_zero_padded() {
    let d = register_from(&frame_bits(1, 2, 3, 4));
    assert_eq!(d.to_display_string(), "01:02:03:04");
    let d = register_from(&frame_bits(23, 59, 48, 29));
    assert_eq!(d.to_display_string(), "23:59:48:29");
    assert_eq!(LtcFrameData::new_empty().to_display_string(), "00:00:00:00");
}

#[test]
fn debug_string_shows_sync_and_bits() {
    let d = register_from(&frame_bits(1, 2, 3, 4));
    assert_eq!(
        d.to_debug_string(),
        "sync: true, 01:02:03:04 0b_0010_0000_0000_0000_1100_0000_0000_0000_0100_0000_0000_0000_1000_0000_0000_0000"
    );
    let mut e = d;
    e.shift_bit(true);
    assert!(e.to_debug_string().starts_with("sync: false, "));
}

#[test]
fn tracker_strings_wrap_register() {
    let mut tracker = LtcFrame::new_empty();
    feed(&mut tracker, &frame_bits(10, 11, 12, 13), 1);
    assert_eq!(tracker.to_display_string(), "data: 10:11:12:13");
    assert!(tracker.to_debug_string().starts_with("data: sync: true, 10:11:12:13 0b_"));
}

#[test]
fn registers_compare_by_bits() {
    let bits = frame_bits(3, 4, 5, 6);
    let a = register_from(&bits);
    let b = register_from(&bits);
    assert!(a == b);
    let mut c = a;
    c.shift_bit(false);
    assert!(a != c);
    // The same bits at another position still compare equal.
    let mut d = LtcFrameData::new_empty();
    let mut e = LtcFrameData::new_empty();
    d.shift_bit(true);
    for _ in 0..40 {
        e.shift_bit(false);
    }
    e.shift_bit(true);
    assert!(d == e);
    assert_ne!(d.get_count(), e.get_count());
}

#[test]
fn trackers_compare_by_register() {
    let mut a = LtcFrame::new_empty();
    let mut b = LtcFrame::new_empty();
    b.sample_received();
    assert!(a == b);
    a.shift_bit(true);
    assert!(a != b);
    b.shift_bit(true);
    assert!(a == b);
}
