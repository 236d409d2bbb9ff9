use vstd::prelude::*;

verus! {

/// Bits of the mode field inside a tape device's minor number.
pub const ST_NBR_MODE_BITS: i32 = 2;

/// Left edge of the mode field inside the minor number.
pub const ST_MODE_SHIFT: i32 = 5;

/// Mask of the mode field inside the minor number.
pub const ST_MODE_MASK: i32 = 96;

/// The tape unit number encoded in a device's minor number: the bits
/// above the low byte, joined with the low five bits.
pub fn tape_nr(minor: i32) -> (r: i32)
    ensures
        r == (((minor & !255i32) >> 8i32) | (minor & 31i32)),
{
    ((minor & !255) >> 8) | (minor & 31)
}

/// The mode number encoded in a device's minor number: two bits starting
/// at bit five.
pub fn tape_mode(minor: i32) -> (r: i32)
    ensures
        r == ((minor & 96i32) >> 5i32),
        0 <= r < 4,
{
    proof {
        assert(0 <= ((minor & 96i32) >> 5i32) < 4) by (bit_vector);
    }
    (minor & 96) >> 5
}

/// The value of one hexadecimal digit, or 16 for a byte that is none.
pub open spec fn hex_digit(b: u8) -> nat {
    if 48 <= b <= 57 {
        (b - 48) as nat
    } else if 97 <= b <= 102 {
        (b - 87) as nat
    } else if 65 <= b <= 70 {
        (b - 55) as nat
    } else {
        16
    }
}

/// Every byte is a hexadecimal digit.
pub open spec fn all_hex(s: Seq<u8>) -> bool {
    forall|i: int| 0 <= i < s.len() ==> hex_digit(#[trigger] s[i]) < 16
}

/// The number the digits spell, most significant first.
pub open spec fn hex_value(s: Seq<u8>) -> nat
    decreases s.len(),
{
    if s.len() == 0 {
        0
    } else {
        hex_value(s.drop_last()) * 16 + hex_digit(s.last())
    }
}

fn hex_digit_of(b: u8) -> (r: u8)
    ensures
        r as nat == hex_digit(b),
{
    if 48 <= b && b <= 57 {
        b - 48
    } else if 97 <= b && b <= 102 {
        b - 87
    } else if 65 <= b && b <= 70 {
        b - 55
    } else {
        16
    }
}

/// Read an unsigned number from hexadecimal digits: the drive options
/// value as the kernel prints it. `None` for an empty string, a byte
/// that is no digit, or a value past `u32::MAX`.
pub fn parse_hex_u32(s: &[u8]) -> (r: Option<u32>)
    ensures
        match r {
            Some(v) => s@.len() >= 1 && all_hex(s@) && hex_value(s@) <= u32::MAX && v
                == hex_value(s@),
            None => s@.len() == 0 || !all_hex(s@) || hex_value(s@) > u32::MAX,
        },
{
    let n = s.len();
    if n == 0 {
        return None;
    }
    let mut acc: u32 = 0;
    let mut i: usize = 0;
    proof {
        assert(hex_value(s@.take(0)) == 0) by {
            assert(s@.take(0) =~= Seq::<u8>::empty());
        }
    }
    #[verifier::loop_isolation(false)]
    while i < n
        invariant
            i <= n,
            all_hex(s@.take(i as int)),
            acc == hex_value(s@.take(i as int)),
        decreases n - i,
    {
        let d = hex_digit_of(*vstd::slice::slice_index_get(s, i));
        if d >= 16 {
            proof {
                assert(hex_digit(s@[i as int]) >= 16);
                assert(!all_hex(s@));
            }
            return None;
        }
        if acc > (u32::MAX - d as u32) / 16 {
            proof {
                assert(s@.take(i as int + 1).drop_last() =~= s@.take(i as int));
                assert(s@.take(i as int + 1).last() == s@[i as int]);
                lemma_hex_value_monotone(s@, i as int + 1);
                assert(hex_value(s@.take(i as int + 1)) > u32::MAX);
            }
            return None;
        }
        proof {
            assert(s@.take(i as int + 1).drop_last() =~= s@.take(i as int));
            assert(s@.take(i as int + 1).last() == s@[i as int]);
        }
        acc = acc * 16 + d as u32;
        i = i + 1;
        proof {
            assert(all_hex(s@.take(i as int)));
        }
    }
    proof {
        assert(s@.take(n as int) =~= s@);
    }
    Some(acc)
}

/// A longer digit run never spells a smaller number.
proof fn lemma_hex_value_monotone(s: Seq<u8>, k: int)
    requires
        0 < k <= s.len(),
    ensures
        hex_value(s.take(k)) <= hex_value(s),
    decreases s.len() - k,
{
    if k < s.len() {
        lemma_hex_value_monotone(s, k + 1);
        assert(s.take(k + 1).drop_last() =~= s.take(k));
        assert(hex_value(s.take(k)) <= hex_value(s.take(k + 1)));
    } else {
        assert(s.take(k) =~= s);
    }
}

} // verus!
