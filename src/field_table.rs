use vstd::prelude::*;

verus! {

/// One bit of a timecode field: where it sits in the register and what it
/// is worth in the decoded value.
#[derive(Clone, Copy, Debug)]
pub struct BitIndex {
    /// Distance from the most recently received bit.
    pub index: u8,
    /// Decimal weight of the bit when it is set.
    pub weight: u8,
}

/// The entry for the bit that LTC numbers `ltc_bit`. Bits arrive in LTC
/// order, so once a whole frame has been received, bit `ltc_bit` has been
/// followed by `79 - ltc_bit` others.
pub open spec fn ltc_entry(ltc_bit: int, weight: u8) -> BitIndex {
    BitIndex { index: (79 - ltc_bit) as u8, weight }
}

impl BitIndex {
    pub fn new(index: u8, weight: u8) -> (r: BitIndex)
        requires
            index <= 79,
        ensures
            r == ltc_entry(index as int, weight),
    {
        // Bits arrive reversed
        BitIndex { index: 79 - index, weight }
    }
}


/// Decoded value of a field: the sum of the weights of those of its bits that
/// are set in the window `w` (`w[0]` is the most recently received bit).
pub open spec fn field_value(w: Seq<bool>, t: Seq<BitIndex>) -> int
    decreases t.len(),
{
    if t.len() == 0 {
        0
    } else {
        field_value(w, t.drop_last()) + if w[t.last().index as int] {
            t.last().weight as int
        } else {
            0
        }
    }
}

/// The largest value a field can decode to: all its weights together.
pub open spec fn total_weight(t: Seq<BitIndex>) -> int
    decreases t.len(),
{
    if t.len() == 0 {
        0
    } else {
        total_weight(t.drop_last()) + t.last().weight
    }
}

/// Every bit of the field lies inside the 80-bit register.
pub open spec fn within_register(t: Seq<BitIndex>) -> bool {
    forall|k: int| 0 <= k < t.len() ==> #[trigger] t[k].index < 80
}

/// No two bits of the field share a register position.
pub open spec fn distinct_indices(t: Seq<BitIndex>) -> bool {
    forall|a: int, b: int|
        0 <= a < t.len() && 0 <= b < t.len() && a != b ==> #[trigger] t[a].index
            != #[trigger] t[b].index
}

/// A usable field table: inside the register, no position twice, and a
/// largest value that fits in a `u8`.
pub open spec fn valid_table(t: Seq<BitIndex>) -> bool {
    &&& within_register(t)
    &&& distinct_indices(t)
    &&& total_weight(t) <= 255
}

/// Frames: LTC bits 0-3 (units) and 8-9 (tens).
pub open spec fn frames_table() -> Seq<BitIndex> {
    seq![
        ltc_entry(0, 1),
        ltc_entry(1, 2),
        ltc_entry(2, 4),
        ltc_entry(3, 8),
        ltc_entry(8, 10),
        ltc_entry(9, 20),
    ]
}

/// Seconds: LTC bits 16-19 (units) and 24-26 (tens).
pub open spec fn seconds_table() -> Seq<BitIndex> {
    seq![
        ltc_entry(16, 1),
        ltc_entry(17, 2),
        ltc_entry(18, 4),
        ltc_entry(19, 8),
        ltc_entry(24, 10),
        ltc_entry(25, 20),
        ltc_entry(26, 40),
    ]
}

/// Minutes: LTC bits 32-35 (units) and 40-42 (tens).
pub open spec fn minutes_table() -> Seq<BitIndex> {
    seq![
        ltc_entry(32, 1),
        ltc_entry(33, 2),
        ltc_entry(34, 4),
        ltc_entry(35, 8),
        ltc_entry(40, 10),
        ltc_entry(41, 20),
        ltc_entry(42, 40),
    ]
}

/// Hours: LTC bits 48-51 (units) and 56-57 (tens).
pub open spec fn hours_table() -> Seq<BitIndex> {
    seq![
        ltc_entry(48, 1),
        ltc_entry(49, 2),
        ltc_entry(50, 4),
        ltc_entry(51, 8),
        ltc_entry(56, 10),
        ltc_entry(57, 20),
    ]
}

pub fn frame_indices() -> (r: [BitIndex; 6])
    ensures
        r@ == frames_table(),
{
    let r = [
        BitIndex::new(0, 1),
        BitIndex::new(1, 2),
        BitIndex::new(2, 4),
        BitIndex::new(3, 8),
        BitIndex::new(8, 10),
        BitIndex::new(9, 20),
    ];
    assert(r@ =~= frames_table());
    r
}

pub fn second_indices() -> (r: [BitIndex; 7])
    ensures
        r@ == seconds_table(),
{
    let r = [
        BitIndex::new(16, 1),
        BitIndex::new(17, 2),
        BitIndex::new(18, 4),
        BitIndex::new(19, 8),
        BitIndex::new(24, 10),
        BitIndex::new(25, 20),
        BitIndex::new(26, 40),
    ];
    assert(r@ =~= seconds_table());
    r
}

pub fn minute_indices() -> (r: [BitIndex; 7])
    ensures
        r@ == minutes_table(),
{
    let r = [
        BitIndex::new(32, 1),
        BitIndex::new(33, 2),
        BitIndex::new(34, 4),
        BitIndex::new(35, 8),
        BitIndex::new(40, 10),
        BitIndex::new(41, 20),
        BitIndex::new(42, 40),
    ];
    assert(r@ =~= minutes_table());
    r
}

pub fn hour_indices() -> (r: [BitIndex; 6])
    ensures
        r@ == hours_table(),
{
    let r = [
        BitIndex::new(48, 1),
        BitIndex::new(49, 2),
        BitIndex::new(50, 4),
        BitIndex::new(51, 8),
        BitIndex::new(56, 10),
        BitIndex::new(57, 20),
    ];
    assert(r@ =~= hours_table());
    r
}

/// The four timecode field tables lie inside the register, use each
/// position once, and decode to at most 255.
pub proof fn lemma_field_tables_valid()
    ensures
        valid_table(frames_table()),
        valid_table(seconds_table()),
        valid_table(minutes_table()),
        valid_table(hours_table()),
{
    reveal_with_fuel(total_weight, 8);
    assert(total_weight(frames_table()) == 45);
    assert(total_weight(seconds_table()) == 85);
    assert(total_weight(minutes_table()) == 85);
    assert(total_weight(hours_table()) == 45);
}

/// A weighted sum never exceeds the total weight, and a prefix of a table
/// weighs no more than the table.
pub proof fn lemma_field_value_bounds(w: Seq<bool>, t: Seq<BitIndex>, n: int)
    requires
        0 <= n <= t.len(),
    ensures
        0 <= field_value(w, t) <= total_weight(t),
        total_weight(t.take(n)) <= total_weight(t),
    decreases t.len(),
{
    if t.len() > 0 {
        let n2 = if n == t.len() { n - 1 } else { n };
        lemma_field_value_bounds(w, t.drop_last(), n2);
        if n < t.len() {
            assert(t.drop_last().take(n) =~= t.take(n));
        } else {
            assert(t.take(n) =~= t);
        }
    } else {
        assert(t.take(n) =~= t);
    }
}

/// Flipping a register bit that the field does not use leaves its decoded
/// value unchanged.
pub proof fn lemma_flip_outside_field(w: Seq<bool>, t: Seq<BitIndex>, i: int)
    requires
        within_register(t),
        w.len() == 80,
        0 <= i < 80,
        forall|k: int| 0 <= k < t.len() ==> #[trigger] t[k].index != i,
    ensures
        field_value(w.update(i, !w[i]), t) == field_value(w, t),
    decreases t.len(),
{
    if t.len() > 0 {
        let t0 = t.drop_last();
        assert forall|k: int| 0 <= k < t0.len() implies #[trigger] t0[k].index != i by {
            assert(t0[k] == t[k]);
        }
        assert forall|m: int| 0 <= m < t0.len() implies #[trigger] t0[m].index < 80 by {
            assert(t0[m] == t[m]);
        }
        lemma_flip_outside_field(w, t0, i);
        assert(t.last() == t[t.len() - 1]);
        assert(t[t.len() - 1].index < 80);
    }
}

/// Flipping a register bit that the field uses changes its decoded value by
/// exactly that bit's weight: up when the bit becomes set, down when it is
/// cleared.
pub proof fn lemma_flip_inside_field(w: Seq<bool>, t: Seq<BitIndex>, k: int)
    requires
        within_register(t),
        distinct_indices(t),
        w.len() == 80,
        0 <= k < t.len(),
    ensures
        field_value(w.update(t[k].index as int, !w[t[k].index as int]), t) == field_value(w, t)
            + if w[t[k].index as int] {
            -(t[k].weight as int)
        } else {
            t[k].weight as int
        },
    decreases t.len(),
{
    let j = t[k].index as int;
    let w2 = w.update(j, !w[j]);
    let t0 = t.drop_last();
    if k == t.len() - 1 {
        assert forall|m: int| 0 <= m < t0.len() implies #[trigger] t0[m].index != j by {
            assert(t0[m] == t[m]);
        }
        assert forall|m: int| 0 <= m < t0.len() implies #[trigger] t0[m].index < 80 by {
            assert(t0[m] == t[m]);
        }
        lemma_flip_outside_field(w, t0, j);
    } else {
        assert(t0[k] == t[k]);
        assert forall|a: int, b: int|
            0 <= a < t0.len() && 0 <= b < t0.len() && a != b implies #[trigger] t0[a].index
            != #[trigger] t0[b].index by {
            assert(t0[a] == t[a]);
            assert(t0[b] == t[b]);
        }
        assert forall|m: int| 0 <= m < t0.len() implies #[trigger] t0[m].index < 80 by {
            assert(t0[m] == t[m]);
        }
        lemma_flip_inside_field(w, t0, k);
        assert(t.last() == t[t.len() - 1]);
        assert(t[t.len() - 1].index != j);
    }
}

} // verus!
