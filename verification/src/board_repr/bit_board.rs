use vstd::prelude::*;
use vstd::std_specs::bits::u64_trailing_zeros;
use vstd::std_specs::bits::axiom_u64_trailing_zeros;
use super::square::Square;

verus! {

/// Whether bit `i` of `x` is set, for a bit position given as a machine word.
pub open spec fn bit_set(x: u64, i: u64) -> bool {
    x & (1u64 << i) != 0
}

/// Whether bit `i` of `x` is set; false outside `0..64`.
pub open spec fn bit(x: u64, i: int) -> bool {
    0 <= i < 64 && bit_set(x, i as u64)
}

/// The word whose low `k` bits are set and no others.
pub open spec fn low_bits(k: u64) -> u64 {
    if k >= 64 {
        0xffff_ffff_ffff_ffffu64
    } else {
        !(0xffff_ffff_ffff_ffffu64 << k)
    }
}

/// The number of set bits of `x` among the positions below `n`.
pub open spec fn count_below(x: u64, n: int) -> int
    decreases n,
{
    if n <= 0 {
        0
    } else {
        count_below(x, n - 1) + if bit(x, n - 1) { 1int } else { 0int }
    }
}

/// The number of set bits of `x`.
pub open spec fn popcount(x: u64) -> int {
    count_below(x, 64)
}

/// The position of the lowest set bit of `x` (64 when `x` is zero).
pub open spec fn lowest(x: u64) -> int {
    u64_trailing_zeros(x) as int
}

/// `x` rotated left by `n` positions, `n` taken modulo 64.
pub open spec fn rotl(x: u64, n: u32) -> u64 {
    let r = (n % 64) as u64;
    if r == 0 {
        x
    } else {
        (x << r) | (x >> ((64 - r) as u64))
    }
}

/// How membership behaves under the bitwise operations.
pub proof fn lemma_word_algebra(a: u64, b: u64, i: u64)
    by (bit_vector)
    requires
        i < 64,
    ensures
        bit_set(a | b, i) == (bit_set(a, i) || bit_set(b, i)),
        bit_set(a & b, i) == (bit_set(a, i) && bit_set(b, i)),
        bit_set(!a, i) == !bit_set(a, i),
        !bit_set(0u64, i),
        bit_set(0xffff_ffff_ffff_ffffu64, i),
        ((a >> i) & 1u64 == 1u64) == bit_set(a, i),
        ((a >> i) & 1u64 == 0u64) == !bit_set(a, i),
{
}

/// A one-bit word holds exactly its own position.
pub proof fn lemma_word_single(i: u64, j: u64)
    by (bit_vector)
    requires
        i < 64,
        j < 64,
    ensures
        bit_set(1u64 << i, j) == (i == j),
        (1u64 << i) != 0,
{
}

proof fn lemma_low_bits_step(a: u64, b: u64, k: u64)
    by (bit_vector)
    requires
        k < 64,
    ensures
        a & low_bits(0) == 0,
        a & low_bits(64) == a,
        (a & low_bits(k) == b & low_bits(k) && bit_set(a, k) == bit_set(b, k)) ==> a & low_bits(
            (k + 1) as u64,
        ) == b & low_bits((k + 1) as u64),
{
}

proof fn lemma_agree_below(a: u64, b: u64, k: u64)
    requires
        k <= 64,
        forall|i: int| 0 <= i < 64 ==> bit(a, i) == bit(b, i),
    ensures
        a & low_bits(k) == b & low_bits(k),
    decreases k,
{
    if k == 0 {
        lemma_low_bits_step(a, b, 0);
        lemma_low_bits_step(b, a, 0);
    } else {
        let j = (k - 1) as u64;
        lemma_agree_below(a, b, j);
        assert(bit(a, j as int) == bit(b, j as int));
        lemma_low_bits_step(a, b, j);
    }
}

/// Two words with the same set bits are the same word.
pub proof fn lemma_bits_equal(a: u64, b: u64)
    requires
        forall|i: int| 0 <= i < 64 ==> bit(a, i) == bit(b, i),
    ensures
        a == b,
{
    lemma_agree_below(a, b, 64);
    lemma_low_bits_step(a, b, 0);
    lemma_low_bits_step(b, a, 0);
}

/// Membership in unions, intersections and complements, over `has`.
pub proof fn lemma_bit_ops(a: u64, b: u64)
    ensures
        forall|i: int| #![trigger bit(a | b, i)] bit(a | b, i) == (bit(a, i) || bit(b, i)),
        forall|i: int| #![trigger bit(a & b, i)] bit(a & b, i) == (bit(a, i) && bit(b, i)),
        forall|i: int| #![trigger bit(!a, i)] 0 <= i < 64 ==> bit(!a, i) == !bit(a, i),
        forall|i: int| #![trigger bit(a & !b, i)] bit(a & !b, i) == (bit(a, i) && !bit(b, i)),
{
    assert forall|i: int| 0 <= i < 64 implies bit(a | b, i) == (bit(a, i) || bit(b, i)) && bit(
        a & b,
        i,
    ) == (bit(a, i) && bit(b, i)) && bit(!a, i) == !bit(a, i) && bit(a & !b, i) == (bit(a, i)
        && !bit(b, i)) by {
        lemma_word_algebra(a, b, i as u64);
        lemma_word_algebra(a, !b, i as u64);
        lemma_word_algebra(b, a, i as u64);
    }
}

/// The empty word has no member; a word with a member is not empty.
pub proof fn lemma_bit_zero(a: u64)
    ensures
        forall|i: int| !bit(0u64, i),
        a != 0 <==> exists|i: int| 0 <= i < 64 && bit(a, i),
{
    assert forall|i: int| !bit(0u64, i) by {
        if 0 <= i < 64 {
            lemma_word_algebra(0, 0, i as u64);
        }
    }
    if a != 0 {
        lemma_lowest(a);
        assert(bit(a, lowest(a)));
    }
}

/// Membership in a one-bit word.
pub proof fn lemma_bit_single(i: int)
    requires
        0 <= i < 64,
    ensures
        forall|j: int| #![trigger bit(1u64 << (i as u64), j)] bit(1u64 << (i as u64), j) == (j == i),
        (1u64 << (i as u64)) != 0,
{
    assert forall|j: int| #![trigger bit(1u64 << (i as u64), j)] bit(1u64 << (i as u64), j) == (j == i) by {
        if 0 <= j < 64 {
            lemma_word_single(i as u64, j as u64);
        }
    }
    lemma_word_single(i as u64, i as u64);
}

/// The lowest set bit of a non-empty word is a member below every other member.
pub proof fn lemma_lowest(x: u64)
    requires
        x != 0,
    ensures
        0 <= lowest(x) < 64,
        bit(x, lowest(x)),
        forall|j: int| bit(x, j) ==> lowest(x) <= j,
{
    axiom_u64_trailing_zeros(x);
    let tz = u64_trailing_zeros(x);
    lemma_word_algebra(x, x, tz as u64);
    assert forall|j: int| bit(x, j) implies lowest(x) <= j by {
        if j < tz {
            let ju = j as u64;
            assert((x >> ju) & 1u64 == 0u64);
            lemma_word_algebra(x, x, ju);
        }
    }
}

proof fn lemma_count_single(i: int, n: int)
    requires
        0 <= i < 64,
        0 <= n <= 64,
    ensures
        count_below(1u64 << (i as u64), n) == if i < n {
            1int
        } else {
            0int
        },
    decreases n,
{
    if n > 0 {
        lemma_count_single(i, n - 1);
        lemma_bit_single(i);
    }
}

/// A one-bit word has one set bit.
pub proof fn lemma_popcount_single(i: int)
    requires
        0 <= i < 64,
    ensures
        popcount(1u64 << (i as u64)) == 1,
{
    lemma_count_single(i, 64);
}

/// The count of set bits stays between zero and the number of positions looked at.
pub proof fn lemma_count_below_bounds(x: u64, n: int)
    requires
        0 <= n,
    ensures
        0 <= count_below(x, n) <= n,
    decreases n,
{
    if n > 0 {
        lemma_count_below_bounds(x, n - 1);
    }
}

/// A set over the 64 squares, one bit per square: bit `i` stands for the
/// square whose index is `i`.
#[derive(Clone, Copy, Debug, PartialEq, Eq, Structural)]
pub struct BitBoard(pub u64);

impl Default for BitBoard {
    fn default() -> (r: BitBoard)
        ensures
            r.0 == 0,
    {
        BitBoard(0)
    }
}

impl BitBoard {
    /// Whether the square belongs to the set.
    pub open spec fn contains(self, square: Square) -> bool {
        bit(self.0, square.ord())
    }

    pub fn from(bitmap: u64) -> (r: BitBoard)
        ensures
            r.0 == bitmap,
    {
        BitBoard(bitmap)
    }

    pub fn empty(&self) -> (r: bool)
        ensures
            r == (self.0 == 0),
            r == (forall|i: int| !bit(self.0, i)),
    {
        proof {
            lemma_bit_zero(self.0);
        }
        self.0 == 0
    }

    pub fn count_ones(&self) -> (r: u32)
        ensures
            r == popcount(self.0),
            r <= 64,
    {
        let mut n: u32 = 0;
        let mut i: u8 = 0;
        while i < 64
            invariant
                i <= 64,
                n == count_below(self.0, i as int),
                n <= i,
            decreases 64 - i,
        {
            if self.0 & (1u64 << i) != 0 {
                n += 1;
            }
            i += 1;
        }
        n
    }

    /// The lowest-indexed square of a non-empty set.
    pub fn lsb_bit_square(&self) -> (r: Square)
        requires
            self.0 != 0,
        ensures
            r.ord() == lowest(self.0),
            self.contains(r),
            forall|i: int| bit(self.0, i) ==> r.ord() <= i,
    {
        proof {
            lemma_lowest(self.0);
        }
        Square::get_by_index(self.0.trailing_zeros() as u8)
    }

    pub fn value(self) -> (r: u64)
        ensures
            r == self.0,
    {
        self.0
    }

    pub fn set_bit_value(&mut self, square: Square)
        ensures
            final(self).0 == old(self).0 | (1u64 << (square.ord() as u64)),
            forall|i: int| #![trigger bit(final(self).0, i)] bit(final(self).0, i) == (i == square.ord() || bit(old(self).0, i)),
    {
        proof {
            lemma_bit_ops(self.0, 1u64 << (square.ord() as u64));
            lemma_bit_single(square.ord());
        }
        self.0 = self.0 | (1u64 << square.index());
    }

    pub fn pop_bit_value(&mut self, square: Square)
        ensures
            final(self).0 == old(self).0 & !(1u64 << (square.ord() as u64)),
            forall|i: int| #![trigger bit(final(self).0, i)] bit(final(self).0, i) == (i != square.ord() && bit(old(self).0, i)),
    {
        proof {
            lemma_bit_ops(self.0, 1u64 << (square.ord() as u64));
            lemma_bit_single(square.ord());
        }
        self.0 = self.0 & !(1u64 << square.index());
    }

    pub fn get_bit_value(&self, square: Square) -> (r: bool)
        ensures
            r == self.contains(square),
    {
        (self.0 & (1u64 << square.index())) != 0
    }

    pub fn wrapping_add(&self, rhs: BitBoard) -> (r: BitBoard)
        ensures
            r.0 == self.0.wrapping_add(rhs.0),
            r.0 as int == (self.0 + rhs.0) % 0x1_0000_0000_0000_0000,
    {
        BitBoard::from(self.0.wrapping_add(rhs.0))
    }

    pub fn wrapping_sub(&self, rhs: BitBoard) -> (r: BitBoard)
        ensures
            r.0 == self.0.wrapping_sub(rhs.0),
            r.0 as int == (self.0 - rhs.0) % 0x1_0000_0000_0000_0000,
    {
        BitBoard::from(self.0.wrapping_sub(rhs.0))
    }

    pub fn wrapping_mul(&self, rhs: BitBoard) -> (r: BitBoard)
        ensures
            r.0 == self.0.wrapping_mul(rhs.0),
            r.0 as int == (self.0 * rhs.0) % 0x1_0000_0000_0000_0000,
    {
        BitBoard::from(self.0.wrapping_mul(rhs.0))
    }

    pub fn rotate_left(&self, rotations: u32) -> (r: BitBoard)
        ensures
            r.0 == rotl(self.0, rotations),
    {
        let turn: u32 = rotations % 64;
        if turn == 0 {
            BitBoard::from(self.0)
        } else {
            BitBoard::from((self.0 << turn) | (self.0 >> (64 - turn)))
        }
    }

    /// The union of two sets.
    pub fn union(self, rhs: BitBoard) -> (r: BitBoard)
        ensures
            r.0 == self.0 | rhs.0,
            forall|i: int| #![trigger bit(r.0, i)] bit(r.0, i) == (bit(self.0, i) || bit(rhs.0, i)),
    {
        proof {
            lemma_bit_ops(self.0, rhs.0);
        }
        BitBoard(self.0 | rhs.0)
    }

    /// The intersection of two sets.
    pub fn intersection(self, rhs: BitBoard) -> (r: BitBoard)
        ensures
            r.0 == self.0 & rhs.0,
            forall|i: int| #![trigger bit(r.0, i)] bit(r.0, i) == (bit(self.0, i) && bit(rhs.0, i)),
    {
        proof {
            lemma_bit_ops(self.0, rhs.0);
        }
        BitBoard(self.0 & rhs.0)
    }

    /// The squares outside the set.
    pub fn complement(self) -> (r: BitBoard)
        ensures
            r.0 == !self.0,
            forall|i: int| #![trigger bit(r.0, i)] 0 <= i < 64 ==> bit(r.0, i) == !bit(self.0, i),
    {
        proof {
            lemma_bit_ops(self.0, self.0);
        }
        BitBoard(!self.0)
    }
}

impl core::ops::BitAnd for BitBoard {
    type Output = BitBoard;

    fn bitand(self, rhs: BitBoard) -> (r: BitBoard) {
        BitBoard(self.0 & rhs.0)
    }
}

impl vstd::std_specs::ops::BitAndSpecImpl for BitBoard {
    open spec fn obeys_bitand_spec() -> bool {
        true
    }

    open spec fn bitand_req(self, rhs: BitBoard) -> bool {
        true
    }

    open spec fn bitand_spec(self, rhs: BitBoard) -> BitBoard {
        BitBoard(self.0 & rhs.0)
    }
}

impl core::ops::BitAnd<u64> for BitBoard {
    type Output = BitBoard;

    fn bitand(self, rhs: u64) -> (r: BitBoard) {
        BitBoard(self.0 & rhs)
    }
}

impl vstd::std_specs::ops::BitAndSpecImpl<u64> for BitBoard {
    open spec fn obeys_bitand_spec() -> bool {
        true
    }

    open spec fn bitand_req(self, rhs: u64) -> bool {
        true
    }

    open spec fn bitand_spec(self, rhs: u64) -> BitBoard {
        BitBoard(self.0 & rhs)
    }
}

impl core::ops::BitAndAssign for BitBoard {
    fn bitand_assign(&mut self, rhs: BitBoard)
        ensures
            final(self).0 == old(self).0 & rhs.0,
    {
        self.0 = self.0 & rhs.0;
    }
}

impl core::ops::BitOr for BitBoard {
    type Output = BitBoard;

    fn bitor(self, rhs: BitBoard) -> (r: BitBoard) {
        BitBoard(self.0 | rhs.0)
    }
}

impl vstd::std_specs::ops::BitOrSpecImpl for BitBoard {
    open spec fn obeys_bitor_spec() -> bool {
        true
    }

    open spec fn bitor_req(self, rhs: BitBoard) -> bool {
        true
    }

    open spec fn bitor_spec(self, rhs: BitBoard) -> BitBoard {
        BitBoard(self.0 | rhs.0)
    }
}

impl core::ops::BitOr<u64> for BitBoard {
    type Output = BitBoard;

    fn bitor(self, rhs: u64) -> (r: BitBoard) {
        BitBoard(self.0 | rhs)
    }
}

impl vstd::std_specs::ops::BitOrSpecImpl<u64> for BitBoard {
    open spec fn obeys_bitor_spec() -> bool {
        true
    }

    open spec fn bitor_req(self, rhs: u64) -> bool {
        true
    }

    open spec fn bitor_spec(self, rhs: u64) -> BitBoard {
        BitBoard(self.0 | rhs)
    }
}

impl core::ops::BitOrAssign for BitBoard {
    fn bitor_assign(&mut self, rhs: BitBoard)
        ensures
            final(self).0 == old(self).0 | rhs.0,
    {
        self.0 = self.0 | rhs.0;
    }
}

impl core::ops::BitOrAssign<u64> for BitBoard {
    fn bitor_assign(&mut self, rhs: u64)
        ensures
            final(self).0 == old(self).0 | rhs,
    {
        self.0 = self.0 | rhs;
    }
}

impl core::ops::Shl<usize> for BitBoard {
    type Output = BitBoard;

    fn shl(self, rhs: usize) -> (r: BitBoard) {
        BitBoard(self.0 << rhs)
    }
}

impl vstd::std_specs::ops::ShlSpecImpl<usize> for BitBoard {
    open spec fn obeys_shl_spec() -> bool {
        true
    }

    open spec fn shl_req(self, rhs: usize) -> bool {
        rhs < 64
    }

    open spec fn shl_spec(self, rhs: usize) -> BitBoard {
        BitBoard(self.0 << rhs)
    }
}

impl core::ops::Shr<usize> for BitBoard {
    type Output = BitBoard;

    fn shr(self, rhs: usize) -> (r: BitBoard) {
        BitBoard(self.0 >> rhs)
    }
}

impl vstd::std_specs::ops::ShrSpecImpl<usize> for BitBoard {
    open spec fn obeys_shr_spec() -> bool {
        true
    }

    open spec fn shr_req(self, rhs: usize) -> bool {
        rhs < 64
    }

    open spec fn shr_spec(self, rhs: usize) -> BitBoard {
        BitBoard(self.0 >> rhs)
    }
}

impl core::ops::Not for BitBoard {
    type Output = BitBoard;

    fn not(self) -> (r: BitBoard) {
        BitBoard(!self.0)
    }
}

impl vstd::std_specs::ops::NotSpecImpl for BitBoard {
    open spec fn obeys_not_spec() -> bool {
        true
    }

    open spec fn not_req(self) -> bool {
        true
    }

    open spec fn not_spec(self) -> BitBoard {
        BitBoard(!self.0)
    }
}

} // verus!
