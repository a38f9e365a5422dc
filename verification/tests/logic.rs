use eevee::bit::Bit;
use eevee::logic::LogicVec;

#[test]
fn conditional_selects_and_merges_four_state_values() {
    let when_true = LogicVec::parse_sized("4'b10z1").unwrap();
    let when_false = LogicVec::parse_sized("4'b10z0").unwrap();
    assert_eq!(
        LogicVec::conditional(&LogicVec::from_u64(1, 1), &when_true, &when_false),
        when_true
    );
    assert_eq!(
        LogicVec::conditional(&LogicVec::zero(1), &when_true, &when_false),
        when_false
    );
    let merged = LogicVec::conditional(&LogicVec::x(1), &when_true, &when_false);
    assert_eq!(merged.get_bit(0), Bit::X);
    assert_eq!(merged.get_bit(1), Bit::Z);
    assert_eq!(merged.get_bit(2), Bit::Zero);
    assert_eq!(merged.get_bit(3), Bit::One);

    let equal_unknown = LogicVec::conditional(
        &LogicVec::z(2),
        &LogicVec::parse_sized("2'bxz").unwrap(),
        &LogicVec::parse_sized("2'bxz").unwrap(),
    );
    assert_eq!(equal_unknown.get_bit(0), Bit::Z);
    assert_eq!(equal_unknown.get_bit(1), Bit::X);

    let unequal_width = LogicVec::conditional(
        &LogicVec::x(1),
        &LogicVec::from_u64(1, 1),
        &LogicVec::from_u64(0b1010, 4),
    );
    assert_eq!(unequal_width.width(), 4);
    assert_eq!(unequal_width.get_bit(0), Bit::X);
    assert_eq!(unequal_width.get_bit(1), Bit::X);
    assert_eq!(unequal_width.get_bit(2), Bit::Zero);
    assert_eq!(unequal_width.get_bit(3), Bit::X);

    let partly_unknown_true = LogicVec::parse_sized("2'bx1").unwrap();
    assert_eq!(
        LogicVec::conditional(&partly_unknown_true, &when_true, &when_false),
        when_true
    );
}

#[test]
fn logicvec_stays_small() {
    // The core datum is cloned/stored on every net touch and lives in every
    // interpreter register, so its size directly drives memory traffic and
    // cache behavior. Guard against accidental bloat. Known further lever:
    // boxing the rare `Wide` variant would roughly halve this (deferred —
    // profiling shows clone traffic is not the current bottleneck).
    let sz = std::mem::size_of::<LogicVec>();
    assert!(sz <= 48, "LogicVec grew to {sz} bytes (was <= 48)");
}

#[test]
fn zero_and_known() {
    let v = LogicVec::zero(8);
    assert_eq!(v.width(), 8);
    assert!(v.is_known());
    assert!(!v.is_true());
    assert_eq!(v.to_u64(), 0);
}

#[test]
fn from_u64_round_trip() {
    let v = LogicVec::from_u64(0xABCD, 16);
    assert_eq!(v.to_u64(), 0xABCD);
    assert_eq!(v.try_to_u64(), Some(0xABCD));
    // truncation
    let t = LogicVec::from_u64(0x1_2345, 16);
    assert_eq!(t.to_u64(), 0x2345);
}

#[test]
fn x_z_states() {
    let x = LogicVec::x(4);
    assert!(x.has_unknown());
    assert!(!x.is_true());
    assert_eq!(x.try_to_u64(), None);
    assert_eq!(x.get_bit(0), Bit::X);
    let z = LogicVec::z(4);
    assert_eq!(z.get_bit(3), Bit::Z);
    assert!(z.has_unknown());
}

#[test]
fn parse_sized_literals() {
    assert_eq!(LogicVec::parse_sized("4'b1010").unwrap().to_u64(), 0b1010);
    assert_eq!(LogicVec::parse_sized("8'hF0").unwrap().to_u64(), 0xF0);
    assert_eq!(LogicVec::parse_sized("32'd42").unwrap().to_u64(), 42);
    assert_eq!(LogicVec::parse_sized("6'o52").unwrap().to_u64(), 0o52);
    let v = LogicVec::parse_sized("4'b10x1").unwrap();
    assert_eq!(v.get_bit(0), Bit::One);
    assert_eq!(v.get_bit(1), Bit::X);
    assert_eq!(v.get_bit(2), Bit::Zero);
    assert_eq!(v.get_bit(3), Bit::One);
    assert!(v.has_unknown());
    let z = LogicVec::parse_sized("1'bz").unwrap();
    assert_eq!(z.get_bit(0), Bit::Z);
    assert_eq!(
        LogicVec::parse_sized("8'b_1010_0101").unwrap().to_u64(),
        0xA5
    );
}

#[test]
fn display_format() {
    assert_eq!(
        LogicVec::parse_sized("4'b10x1").unwrap().to_string(),
        "4'b10x1"
    );
    assert_eq!(LogicVec::from_u64(0xA, 4).to_string(), "4'b1010");
    assert_eq!(LogicVec::z(2).to_string(), "2'bzz");
}

#[test]
fn bit_set_get() {
    let mut v = LogicVec::zero(8);
    v.set_bit(3, Bit::One);
    v.set_bit(5, Bit::X);
    assert_eq!(v.get_bit(3), Bit::One);
    assert_eq!(v.get_bit(5), Bit::X);
    assert_eq!(v.get_bit(0), Bit::Zero);
    assert!(v.has_unknown());
}

#[test]
fn arithmetic_known() {
    let a = LogicVec::from_u64(40, 32);
    let b = LogicVec::from_u64(2, 32);
    assert_eq!(a.add(&b).to_u64(), 42);
    assert_eq!(a.sub(&b).to_u64(), 38);
    assert_eq!(a.mul(&b).to_u64(), 80);
}

#[test]
fn arithmetic_truncates() {
    let a = LogicVec::from_u64(0xFFFF_FFFF, 32);
    let one = LogicVec::from_u64(1, 32);
    // 0xFFFFFFFF + 1 wraps to 0 in 32 bits
    assert_eq!(a.add(&one).to_u64(), 0);
}

#[test]
fn arithmetic_x_propagates() {
    let a = LogicVec::x(8);
    let b = LogicVec::from_u64(1, 8);
    assert!(a.add(&b).has_unknown());
    assert!(b.add(&a).has_unknown());
}

#[test]
fn bitwise_4state() {
    let a = LogicVec::parse_sized("4'b1100").unwrap();
    let b = LogicVec::parse_sized("4'b1010").unwrap();
    assert_eq!(a.bitand(&b), LogicVec::parse_sized("4'b1000").unwrap());
    assert_eq!(a.bitor(&b), LogicVec::parse_sized("4'b1110").unwrap());
    assert_eq!(a.bitxor(&b), LogicVec::parse_sized("4'b0110").unwrap());
    assert_eq!(a.bitnot(), LogicVec::parse_sized("4'b0011").unwrap());
}

#[test]
fn bitwise_x_rules() {
    // 1 & x = x ; 0 & x = 0
    let one = LogicVec::parse_sized("1'b1").unwrap();
    let zero = LogicVec::parse_sized("1'b0").unwrap();
    let x = LogicVec::x(1);
    assert_eq!(one.bitand(&x).get_bit(0), Bit::X);
    assert_eq!(zero.bitand(&x).get_bit(0), Bit::Zero);
    // 1 | x = 1 ; 0 | x = x
    assert_eq!(one.bitor(&x).get_bit(0), Bit::One);
    assert_eq!(zero.bitor(&x).get_bit(0), Bit::X);
    // ~x = x
    assert_eq!(x.bitnot().get_bit(0), Bit::X);
    // anything xor x = x
    assert_eq!(one.bitxor(&x).get_bit(0), Bit::X);
}

#[test]
fn reductions() {
    assert_eq!(
        LogicVec::parse_sized("4'b0010").unwrap().reduce_or(),
        Bit::One
    );
    assert_eq!(LogicVec::zero(4).reduce_or(), Bit::Zero);
    assert_eq!(LogicVec::x(4).reduce_or(), Bit::X);
    assert_eq!(LogicVec::ones(4).reduce_and(), Bit::One);
    assert_eq!(
        LogicVec::parse_sized("4'b1110").unwrap().reduce_and(),
        Bit::Zero
    );
    assert_eq!(
        LogicVec::parse_sized("4'b1011").unwrap().reduce_xor(),
        Bit::One
    );
    assert_eq!(
        LogicVec::parse_sized("4'b1010").unwrap().reduce_xor(),
        Bit::Zero
    );
}

#[test]
fn equality_case_vs_logical() {
    let a = LogicVec::from_u64(5, 8);
    let b = LogicVec::from_u64(5, 8);
    assert!(a.eq_case(&b));
    assert_eq!(a.eq_logical(&b).get_bit(0), Bit::One);
    let x1 = LogicVec::x(8);
    let x2 = LogicVec::x(8);
    assert!(x1.eq_case(&x2)); // === : x===x is true
    assert_eq!(x1.eq_logical(&x2).get_bit(0), Bit::X); // == : x==x is x
}

#[test]
fn shifts() {
    let v = LogicVec::from_u64(0b0011, 4);
    assert_eq!(v.shl(1).to_u64(), 0b0110);
    assert_eq!(v.shl(4).to_u64(), 0);
    assert_eq!(v.shr(1).to_u64(), 0b0001);
    let top = LogicVec::from_u64(0b1000, 4);
    assert_eq!(top.shl(1).to_u64(), 0); // carry out dropped
}

#[test]
fn slice_and_concat() {
    let v = LogicVec::from_u64(0xAB, 8);
    assert_eq!(v.slice(7, 4).to_u64(), 0xA);
    assert_eq!(v.slice(3, 0).to_u64(), 0xB);
    let hi = LogicVec::from_u64(0xA, 4);
    let lo = LogicVec::from_u64(0xB, 4);
    assert_eq!(hi.concat(&lo).to_u64(), 0xAB);
}

#[test]
fn resize_zero_and_sign_extend() {
    let v = LogicVec::from_u64(0xF, 4);
    assert_eq!(v.resize(8, false).to_u64(), 0x0F);
    assert_eq!(v.resize(8, true).to_u64(), 0xFF); // sign extend (top bit 1)
    let small = LogicVec::from_u64(0x3, 4);
    assert_eq!(small.resize(8, true).to_u64(), 0x03); // top bit 0
    assert_eq!(v.resize(2, false).to_u64(), 0x3); // truncate
}

#[test]
fn signed_to_i64() {
    let v = LogicVec::from_i64(-1, 8);
    assert_eq!(v.to_u64(), 0xFF);
    assert_eq!(v.to_i64(), -1);
    let p = LogicVec::from_i64(5, 8);
    assert_eq!(p.to_i64(), 5);
}

// ----- Wide (> 64 bit) coverage -----

#[test]
fn wide_construct_and_bits() {
    let mut v = LogicVec::zero(128);
    assert_eq!(v.width(), 128);
    assert!(v.is_known());
    v.set_bit(100, Bit::One);
    v.set_bit(64, Bit::X);
    assert_eq!(v.get_bit(100), Bit::One);
    assert_eq!(v.get_bit(64), Bit::X);
    assert!(v.has_unknown());
    assert!(v.is_true()); // bit 100 is a known 1
}

#[test]
fn wide_ones_and_mask_top() {
    let v = LogicVec::ones(100);
    // every bit 0..100 is 1, nothing above
    assert_eq!(v.get_bit(99), Bit::One);
    assert_eq!(v.get_bit(100), Bit::Zero);
    assert!(v.reduce_and() == Bit::One);
}

#[test]
fn wide_bitwise() {
    let a = LogicVec::ones(96);
    let b = LogicVec::zero(96);
    assert_eq!(a.bitand(&b), LogicVec::zero(96));
    assert_eq!(a.bitor(&b), LogicVec::ones(96));
    assert_eq!(a.bitnot(), LogicVec::zero(96));
}

#[test]
fn wide_add_carry_across_limb() {
    // 0xFFFF...F (64 ones) + 1 in a 96-bit vector -> bit 64 set.
    let mut a = LogicVec::zero(96);
    for i in 0..64 {
        a.set_bit(i, Bit::One);
    }
    let one = LogicVec::from_u64(1, 96);
    let s = a.add(&one);
    assert_eq!(s.get_bit(64), Bit::One);
    for i in 0..64 {
        assert_eq!(s.get_bit(i), Bit::Zero);
    }
}

#[test]
fn width_64_boundary() {
    let v = LogicVec::from_u64(u64::MAX, 64);
    assert_eq!(v.to_u64(), u64::MAX);
    assert!(v.is_known());
    let s = v.add(&LogicVec::from_u64(1, 64));
    assert_eq!(s.to_u64(), 0); // wraps
}

#[test]
fn malformed_digits_are_no_literal() {
    for text in ["4'b1012", "4'bq1010", "4'b", "3'o8", "6'o28", "8'hg0", "8'h0g", "8'd1a", "'b1"] {
        assert!(LogicVec::parse_sized(text).is_none(), "{text}");
    }
    // More digits than the width: the extra ones are cut off, but must be digits.
    assert_eq!(LogicVec::parse_sized("4'b110101").unwrap().to_u64(), 0b0101);
    assert!(LogicVec::parse_sized("4'b210101").is_none());
}
