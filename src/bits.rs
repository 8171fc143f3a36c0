//! Single-bit and bit-run masks on packed pixel bytes.
use vstd::prelude::*;

verus! {

/// Bit `i` (0 = least significant) of `b`.
pub open spec fn bit_of(b: u8, i: int) -> bool {
    (b >> (i as u8)) & 1u8 == 1u8
}

/// `b` with bit `i` forced to `color`.
pub open spec fn with_bit(b: u8, i: int, color: bool) -> u8 {
    if color {
        b | (1u8 << (i as u8))
    } else {
        b & !(1u8 << (i as u8))
    }
}

/// `b` with every bit that is set in `mask` forced to `color`.
pub open spec fn with_mask(b: u8, mask: u8, color: bool) -> u8 {
    if color {
        b | mask
    } else {
        b & !mask
    }
}

/// Two bytes with the same eight bits are the same byte.
pub proof fn lemma_byte_from_bits(a: u8, b: u8)
    requires
        forall|i: int| 0 <= i < 8 ==> bit_of(a, i) == bit_of(b, i),
    ensures
        a == b,
{
    assert(bit_of(a, 0) == bit_of(b, 0));
    assert(bit_of(a, 1) == bit_of(b, 1));
    assert(bit_of(a, 2) == bit_of(b, 2));
    assert(bit_of(a, 3) == bit_of(b, 3));
    assert(bit_of(a, 4) == bit_of(b, 4));
    assert(bit_of(a, 5) == bit_of(b, 5));
    assert(bit_of(a, 6) == bit_of(b, 6));
    assert(bit_of(a, 7) == bit_of(b, 7));
    assert(a == b) by (bit_vector)
        requires
            ((a >> 0u8) & 1u8 == 1u8) == ((b >> 0u8) & 1u8 == 1u8),
            ((a >> 1u8) & 1u8 == 1u8) == ((b >> 1u8) & 1u8 == 1u8),
            ((a >> 2u8) & 1u8 == 1u8) == ((b >> 2u8) & 1u8 == 1u8),
            ((a >> 3u8) & 1u8 == 1u8) == ((b >> 3u8) & 1u8 == 1u8),
            ((a >> 4u8) & 1u8 == 1u8) == ((b >> 4u8) & 1u8 == 1u8),
            ((a >> 5u8) & 1u8 == 1u8) == ((b >> 5u8) & 1u8 == 1u8),
            ((a >> 6u8) & 1u8 == 1u8) == ((b >> 6u8) & 1u8 == 1u8),
            ((a >> 7u8) & 1u8 == 1u8) == ((b >> 7u8) & 1u8 == 1u8),
    ;
}

/// Forcing one bit changes that bit alone.
pub proof fn lemma_with_bit(b: u8, k: int, color: bool)
    requires
        0 <= k < 8,
    ensures
        forall|i: int| 0 <= i < 8 ==> #[trigger] bit_of(with_bit(b, k, color), i) == if i == k {
            color
        } else {
            bit_of(b, i)
        },
{
    let kk = k as u8;
    assert forall|i: int| 0 <= i < 8 implies #[trigger] bit_of(with_bit(b, k, color), i) == if i
        == k {
        color
    } else {
        bit_of(b, i)
    } by {
        let ii = i as u8;
        if color {
            assert((((b | (1u8 << kk)) >> ii) & 1u8 == 1u8) == if ii == kk {
                true
            } else {
                (b >> ii) & 1u8 == 1u8
            }) by (bit_vector)
                requires
                    ii < 8,
                    kk < 8,
            ;
        } else {
            assert((((b & !(1u8 << kk)) >> ii) & 1u8 == 1u8) == if ii == kk {
                false
            } else {
                (b >> ii) & 1u8 == 1u8
            }) by (bit_vector)
                requires
                    ii < 8,
                    kk < 8,
            ;
        }
    }
}

/// Forcing the bits of a mask changes those bits alone.
pub proof fn lemma_with_mask(b: u8, mask: u8, color: bool)
    ensures
        forall|i: int| 0 <= i < 8 ==> #[trigger] bit_of(with_mask(b, mask, color), i) == if bit_of(
            mask,
            i,
        ) {
            color
        } else {
            bit_of(b, i)
        },
{
    assert forall|i: int| 0 <= i < 8 implies #[trigger] bit_of(with_mask(b, mask, color), i)
        == if bit_of(mask, i) {
        color
    } else {
        bit_of(b, i)
    } by {
        let ii = i as u8;
        if color {
            assert((((b | mask) >> ii) & 1u8 == 1u8) == if (mask >> ii) & 1u8 == 1u8 {
                true
            } else {
                (b >> ii) & 1u8 == 1u8
            }) by (bit_vector)
                requires
                    ii < 8,
            ;
        } else {
            assert((((b & !mask) >> ii) & 1u8 == 1u8) == if (mask >> ii) & 1u8 == 1u8 {
                false
            } else {
                (b >> ii) & 1u8 == 1u8
            }) by (bit_vector)
                requires
                    ii < 8,
            ;
        }
    }
}

/// The uniform byte for a color: every bit equal to it.
pub fn fill_byte(color: bool) -> (r: u8)
    ensures
        forall|i: int| 0 <= i < 8 ==> #[trigger] bit_of(r, i) == color,
{
    let r: u8 = if color {
        0xFF
    } else {
        0x00
    };
    assert forall|i: int| 0 <= i < 8 implies #[trigger] bit_of(r, i) == color by {
        let ii = i as u8;
        assert((0xFFu8 >> ii) & 1u8 == 1u8) by (bit_vector)
            requires
                ii < 8,
        ;
        assert((0x00u8 >> ii) & 1u8 != 1u8) by (bit_vector)
            requires
                ii < 8,
        ;
    }
    r
}

/// The "shift" mask: bits `0 .. n` set, the others clear.
pub fn shift_mask(n: u8) -> (r: u8)
    requires
        n <= 8,
    ensures
        forall|i: int| 0 <= i < 8 ==> #[trigger] bit_of(r, i) == (i < n),
{
    let r: u8 = if n == 0 {
        0
    } else {
        0xFFu8 >> (8 - n)
    };
    assert forall|i: int| 0 <= i < 8 implies #[trigger] bit_of(r, i) == (i < n) by {
        let ii = i as u8;
        if n == 0 {
            assert((0u8 >> ii) & 1u8 != 1u8) by (bit_vector)
                requires
                    ii < 8,
            ;
        } else {
            assert((((0xFFu8 >> ((8u8 - n) as u8)) >> ii) & 1u8 == 1u8) == (ii < n)) by (bit_vector)
                requires
                    ii < 8,
                    1 <= n <= 8,
            ;
        }
    }
    r
}

/// The "cap" mask: bits `n .. 8` set, the others clear.
pub fn cap_mask(n: u8) -> (r: u8)
    requires
        n <= 8,
    ensures
        forall|i: int| 0 <= i < 8 ==> #[trigger] bit_of(r, i) == (n <= i),
{
    let s = shift_mask(n);
    let r = !s;
    assert forall|i: int| 0 <= i < 8 implies #[trigger] bit_of(r, i) == (n <= i) by {
        let ii = i as u8;
        assert(bit_of(s, i) == (i < n));
        assert((((!s) >> ii) & 1u8 == 1u8) == !((s >> ii) & 1u8 == 1u8)) by (bit_vector)
            requires
                ii < 8,
        ;
    }
    r
}

/// The mask of the bit run `lo .. hi`: the cap mask of `lo` met with the shift mask of `hi`.
pub fn run_mask(lo: u8, hi: u8) -> (r: u8)
    requires
        lo <= hi <= 8,
    ensures
        forall|i: int| 0 <= i < 8 ==> #[trigger] bit_of(r, i) == (lo <= i < hi),
{
    let c = cap_mask(lo);
    let s = shift_mask(hi);
    let r = c & s;
    assert forall|i: int| 0 <= i < 8 implies #[trigger] bit_of(r, i) == (lo <= i < hi) by {
        let ii = i as u8;
        assert(bit_of(c, i) == (lo <= i));
        assert(bit_of(s, i) == (i < hi));
        assert((((c & s) >> ii) & 1u8 == 1u8) == (((c >> ii) & 1u8 == 1u8) && ((s >> ii) & 1u8
            == 1u8))) by (bit_vector)
            requires
                ii < 8,
        ;
    }
    r
}

} // verus!
