//! Text forms of a received frame, for debugging: the timecode as
//! `HH:MM:SS:FF`, and a verbose form with the sync state and the raw bits.
use crate::field_table::{field_value, frames_table, hours_table, minutes_table, seconds_table};
use crate::frame::LtcFrame;
use crate::frame_data::{LtcFrameData, nibble_bit, sync_present};
use vstd::prelude::*;
use vstd::string::StringExecFns;

verus! {

/// A decimal digit.
pub open spec fn digit_text(d: int) -> Seq<char> {
    if d == 0 {
        "0"@
    } else if d == 1 {
        "1"@
    } else if d == 2 {
        "2"@
    } else if d == 3 {
        "3"@
    } else if d == 4 {
        "4"@
    } else if d == 5 {
        "5"@
    } else if d == 6 {
        "6"@
    } else if d == 7 {
        "7"@
    } else if d == 8 {
        "8"@
    } else {
        "9"@
    }
}

/// A number below 100 as two digits, zero-padded.
pub open spec fn two_digit_text(v: int) -> Seq<char> {
    digit_text(v / 10) + digit_text(v % 10)
}

/// `HH:MM:SS:FF`.
pub open spec fn timecode_text(hours: int, minutes: int, seconds: int, frames: int) -> Seq<
    char,
> {
    two_digit_text(hours) + ":"@ + two_digit_text(minutes) + ":"@ + two_digit_text(seconds) + ":"@
        + two_digit_text(frames)
}

/// The timecode that a window decodes to, as `HH:MM:SS:FF`.
pub open spec fn window_timecode_text(w: Seq<bool>) -> Seq<char> {
    timecode_text(
        field_value(w, hours_table()),
        field_value(w, minutes_table()),
        field_value(w, seconds_table()),
        field_value(w, frames_table()),
    )
}

pub open spec fn bool_text(b: bool) -> Seq<char> {
    if b {
        "true"@
    } else {
        "false"@
    }
}

pub open spec fn bit_text(b: bool) -> Seq<char> {
    if b {
        "1"@
    } else {
        "0"@
    }
}

/// Four bits of the window from `lo` up, oldest first.
pub open spec fn nibble_text(w: Seq<bool>, lo: int) -> Seq<char> {
    bit_text(w[lo + 3]) + bit_text(w[lo + 2]) + bit_text(w[lo + 1]) + bit_text(w[lo])
}

/// The oldest `4 * n` bits of the window, oldest first, as groups of four
/// each led by `_`.
pub open spec fn nibbles_text(w: Seq<bool>, n: nat) -> Seq<char>
    decreases n,
{
    if n == 0 {
        Seq::empty()
    } else {
        nibbles_text(w, (n - 1) as nat) + "_"@ + nibble_text(w, 80 - 4 * n)
    }
}

/// `sync: <bool>, HH:MM:SS:FF 0b_xxxx_..._xxxx`, with the 64 oldest bits of
/// the window in sixteen groups.
pub open spec fn verbose_text(w: Seq<bool>) -> Seq<char> {
    "sync: "@ + bool_text(sync_present(w)) + ", "@ + window_timecode_text(w) + " 0b"@
        + nibbles_text(w, 16)
}

fn push_digit(s: &mut String, d: u8)
    requires
        d < 10,
    ensures
        final(s)@ == old(s)@ + digit_text(d as int),
{
    if d == 0 {
        s.append("0");
    } else if d == 1 {
        s.append("1");
    } else if d == 2 {
        s.append("2");
    } else if d == 3 {
        s.append("3");
    } else if d == 4 {
        s.append("4");
    } else if d == 5 {
        s.append("5");
    } else if d == 6 {
        s.append("6");
    } else if d == 7 {
        s.append("7");
    } else if d == 8 {
        s.append("8");
    } else {
        s.append("9");
    }
}

fn push_two_digits(s: &mut String, v: u8)
    requires
        v < 100,
    ensures
        final(s)@ == old(s)@ + two_digit_text(v as int),
{
    push_digit(s, v / 10);
    push_digit(s, v % 10);
    assert(final(s)@ =~= old(s)@ + two_digit_text(v as int));
}

fn push_bit_text(s: &mut String, b: bool)
    ensures
        final(s)@ == old(s)@ + bit_text(b),
{
    if b {
        s.append("1");
    } else {
        s.append("0");
    }
}

fn push_timecode(s: &mut String, d: &LtcFrameData)
    requires
        d.wf(),
    ensures
        final(s)@ == old(s)@ + window_timecode_text(d@),
{
    let hours = d.get_hours();
    let minutes = d.get_minutes();
    let seconds = d.get_seconds();
    let frames = d.get_frames();
    proof {
        crate::field_table::lemma_field_tables_valid();
        crate::field_table::lemma_field_value_bounds(d@, hours_table(), 0);
        crate::field_table::lemma_field_value_bounds(d@, minutes_table(), 0);
        crate::field_table::lemma_field_value_bounds(d@, seconds_table(), 0);
        crate::field_table::lemma_field_value_bounds(d@, frames_table(), 0);
        reveal_with_fuel(crate::field_table::total_weight, 8);
    }
    let ghost s0 = s@;
    push_two_digits(s, hours);
    s.append(":");
    push_two_digits(s, minutes);
    s.append(":");
    push_two_digits(s, seconds);
    s.append(":");
    push_two_digits(s, frames);
    assert(s@ =~= s0 + window_timecode_text(d@));
}

impl LtcFrameData {
    /// The timecode in the window as `HH:MM:SS:FF`.
    pub fn to_display_string(&self) -> (r: String)
        requires
            self.wf(),
        ensures
            r@ == window_timecode_text(self@),
    {
        let mut s = String::new();
        push_timecode(&mut s, self);
        assert(s@ =~= window_timecode_text(self@));
        s
    }

    /// The sync state, the timecode and the 64 oldest bits of the window.
    #[verifier::rlimit(30)]
    pub fn to_debug_string(&self) -> (r: String)
        requires
            self.wf(),
        ensures
            r@ == verbose_text(self@),
    {
        let mut s = String::new();
        s.append("sync: ");
        if self.next_bit_is_start_of_frame() {
            s.append("true");
        } else {
            s.append("false");
        }
        s.append(", ");
        push_timecode(&mut s, self);
        s.append(" 0b");
        let ghost head = s@;
        let mut n: u8 = 1;
        while n <= 16
            invariant
                self.wf(),
                1 <= n <= 17,
                s@ == head + nibbles_text(self@, (n - 1) as nat),
            decreases 17 - n,
        {
            let lo: u8 = 80 - 4 * n;
            let v = self.nibble(lo);
            let ghost before = s@;
            proof {
                assert(nibble_bit(v, 3) == ((v >> 3u8) & 1 == 1));
                assert(nibble_bit(v, 0) == ((v >> 0u8) & 1 == 1));
            }
            s.append("_");
            push_bit_text(&mut s, (v >> 3) & 1 == 1);
            push_bit_text(&mut s, (v >> 2) & 1 == 1);
            push_bit_text(&mut s, (v >> 1) & 1 == 1);
            push_bit_text(&mut s, (v >> 0) & 1 == 1);
            proof {
                assert(nibble_bit(v, 3) == self@[lo + 3]);
                assert(nibble_bit(v, 2) == self@[lo + 2]);
                assert(nibble_bit(v, 1) == self@[lo + 1]);
                assert(nibble_bit(v, 0) == self@[lo + 0]);
                assert(s@ =~= before + "_"@ + nibble_text(self@, lo as int));
            }
            n += 1;
        }
        assert(s@ =~= verbose_text(self@));
        s
    }
}

impl LtcFrame {
    /// The timecode in the tracker's register as `HH:MM:SS:FF`.
    pub fn to_display_string(&self) -> (r: String)
        requires
            self.wf(),
        ensures
            r@ == "data: "@ + window_timecode_text(self.register()@),
    {
        let mut s = String::new();
        s.append("data: ");
        let text = self.register_ref().to_display_string();
        s.append(text.as_str());
        s
    }

    /// The verbose form of the tracker's register.
    pub fn to_debug_string(&self) -> (r: String)
        requires
            self.wf(),
        ensures
            r@ == "data: "@ + verbose_text(self.register()@),
    {
        let mut s = String::new();
        s.append("data: ");
        let text = self.register_ref().to_debug_string();
        s.append(text.as_str());
        s
    }
}

} // verus!
