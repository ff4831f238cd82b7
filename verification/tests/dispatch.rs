use biguint_wire::arith::{Add, Rem};
use biguint_wire::biguint::BigUint;
use biguint_wire::bitwise::{BitAnd, BitOr};
use biguint_wire::dispatch::{
    assign_val_via_assign_ref, fold, fold_refs, left_is_receiver, promote_assign, promote_left,
    promote_right, ref_ref_via_ref_val, ref_ref_via_val_ref, ref_ref_via_val_ref_commutative,
    ref_ref_via_val_val, ref_val_via_ref_ref, ref_val_via_val_ref,
    ref_val_via_val_ref_commutative, ref_val_via_val_val, reversed_via_val_val,
    val_ref_via_ref_ref, val_ref_via_ref_val, val_ref_via_val_val, val_val_via_ref_ref,
    val_val_via_ref_val, val_val_via_val_ref, val_val_via_val_ref_commutative, AssignRef,
    AssignVal, Commutative, Duplicate, Operand, Operator, RefRef, RefVal, Seeded, ValRef,
    ValVal, Widen,
};

/// Subtraction of machine integers: not commutative, so that an operand in
/// the wrong place shows.
struct Minus;

impl Operator<i64, i64, i64> for Minus {
    fn defined(_lhs: i64, _rhs: i64) -> bool {
        true
    }

    fn result(lhs: i64, rhs: i64) -> i64 {
        lhs - rhs
    }
}

impl ValVal<i64, i64, i64> for Minus {
    fn val_val(lhs: i64, rhs: i64) -> i64 {
        lhs - rhs
    }
}

impl ValRef<i64, i64, i64> for Minus {
    fn val_ref(lhs: i64, rhs: &i64) -> i64 {
        lhs - *rhs
    }
}

impl RefVal<i64, i64, i64> for Minus {
    fn ref_val(lhs: &i64, rhs: i64) -> i64 {
        *lhs - rhs
    }
}

impl RefRef<i64, i64, i64> for Minus {
    fn ref_ref(lhs: &i64, rhs: &i64) -> i64 {
        *lhs - *rhs
    }
}

impl AssignRef<i64, i64> for Minus {
    fn assign_ref(lhs: &mut i64, rhs: &i64) {
        *lhs -= *rhs;
    }
}

impl AssignVal<i64, i64> for Minus {
    fn assign_val(lhs: &mut i64, rhs: i64) {
        *lhs -= rhs;
    }
}

impl Seeded<i64, i64> for Minus {
    fn seed_view() -> i64 {
        100
    }

    fn seed() -> i64 {
        100
    }
}

fn wide(limbs: &[u64]) -> BigUint<u64> {
    BigUint::from_limbs(limbs.to_vec())
}

fn narrow(limbs: &[u32]) -> BigUint<u32> {
    BigUint::from_limbs(limbs.to_vec())
}

#[test]
fn receiver_is_the_larger_and_the_left_on_a_tie() {
    assert!(left_is_receiver(8, 4));
    assert!(left_is_receiver(4, 4));
    assert!(!left_is_receiver(3, 4));
    assert!(left_is_receiver(0, 0));
}

#[test]
fn every_form_keeps_the_operands_in_place() {
    assert_eq!(Minus::val_val(10, 3), 7);
    assert_eq!(val_val_via_val_ref::<i64, i64, i64, Minus>(10, 3), 7);
    assert_eq!(ref_val_via_val_ref::<i64, i64, i64, Minus>(&10, 3), 7);
    assert_eq!(ref_ref_via_val_ref::<i64, i64, i64, Minus>(&10, &3), 7);
    assert_eq!(ref_val_via_ref_ref::<i64, i64, i64, Minus>(&10, 3), 7);
    assert_eq!(val_ref_via_ref_ref::<i64, i64, i64, Minus>(10, &3), 7);
    assert_eq!(val_val_via_ref_ref::<i64, i64, i64, Minus>(10, 3), 7);
    assert_eq!(val_val_via_ref_val::<i64, i64, i64, Minus>(10, 3), 7);
    assert_eq!(val_ref_via_ref_val::<i64, i64, i64, Minus>(10, &3), 7);
    assert_eq!(ref_ref_via_ref_val::<i64, i64, i64, Minus>(&10, &3), 7);
    assert_eq!(val_ref_via_val_val::<i64, i64, i64, Minus>(10, &3), 7);
    assert_eq!(ref_val_via_val_val::<i64, i64, i64, Minus>(&10, 3), 7);
    assert_eq!(ref_ref_via_val_val::<i64, i64, i64, Minus>(&10, &3), 7);
}

#[test]
fn assignment_forms_keep_the_operands_in_place() {
    let mut value: i64 = 10;
    assign_val_via_assign_ref::<i64, i64, Minus>(&mut value, 3);
    assert_eq!(value, 7);
    let mut other: i64 = 10;
    promote_assign::<i64, i16, i32, PromotedMinus>(&mut other, 3i16);
    assert_eq!(other, 7);
}

/// Subtraction of a 32-bit integer from a 64-bit one, and the other way
/// round.
struct PromotedMinus;

impl Operator<i64, i32, i64> for PromotedMinus {
    fn defined(_lhs: i64, _rhs: i32) -> bool {
        true
    }

    fn result(lhs: i64, rhs: i32) -> i64 {
        lhs - i64::from(rhs)
    }
}

impl Operator<i32, i64, i64> for PromotedMinus {
    fn defined(_lhs: i32, _rhs: i64) -> bool {
        true
    }

    fn result(lhs: i32, rhs: i64) -> i64 {
        i64::from(lhs) - rhs
    }
}

impl ValVal<i64, i32, i64> for PromotedMinus {
    fn val_val(lhs: i64, rhs: i32) -> i64 {
        lhs - i64::from(rhs)
    }
}

impl ValVal<i32, i64, i64> for PromotedMinus {
    fn val_val(lhs: i32, rhs: i64) -> i64 {
        i64::from(lhs) - rhs
    }
}

impl AssignVal<i64, i32> for PromotedMinus {
    fn assign_val(lhs: &mut i64, rhs: i32) {
        *lhs -= i64::from(rhs);
    }
}

#[test]
fn narrow_scalars_are_widened_without_loss() {
    assert_eq!(200u8.widen(), 200u32);
    assert_eq!(u8::MAX.widen(), 255u32);
    assert_eq!(u16::MAX.widen(), 65_535u32);
    assert_eq!(usize::MAX.widen(), usize::MAX as u64);
    assert_eq!(i8::MIN.widen(), -128i32);
    assert_eq!((-1i16).widen(), -1i32);
    assert_eq!(isize::MIN.widen(), isize::MIN as i64);
}

#[test]
fn promoted_scalars_keep_their_side() {
    assert_eq!(promote_right::<i64, i8, i32, i64, PromotedMinus>(10, -3i8), 13);
    assert_eq!(promote_left::<i8, i32, i64, i64, PromotedMinus>(-3i8, 10), -13);
    assert_eq!(promote_right::<i64, i16, i32, i64, PromotedMinus>(10, 300i16), -290);
}

#[test]
fn scalars_are_copied_as_they_are() {
    assert_eq!(7u32.duplicate(), 7);
    assert_eq!(u64::MAX.duplicate(), u64::MAX);
    assert_eq!(u128::MAX.duplicate(), u128::MAX);
    assert_eq!((-7i32).duplicate(), -7);
    assert_eq!(i64::MIN.duplicate(), i64::MIN);
    assert_eq!(i128::MIN.duplicate(), i128::MIN);
    let value = wide(&[1, 2]);
    assert_eq!(value.duplicate().limbs(), &vec![1u64, 2]);
}

#[test]
fn fold_takes_the_items_in_order() {
    assert_eq!(fold::<i64, i64, Minus>(vec![1, 20, 300]), 100 - 1 - 20 - 300);
    assert_eq!(fold::<i64, i64, Minus>(vec![]), 100);
    assert_eq!(fold::<i64, i64, Minus>(vec![0, 0]), 100);
}

#[test]
fn or_is_the_same_in_every_form() {
    let expected = vec![0b1110u64, 1];
    let a = wide(&[0b1010]);
    let b = wide(&[0b0110, 1]);
    assert_eq!(BitOr::val_ref(a.clone(), &b).limbs(), &expected);
    assert_eq!(val_val_via_val_ref::<_, _, BigUint<u64>, BitOr>(a.clone(), b.clone()).limbs(), &expected);
    assert_eq!(ref_val_via_val_ref::<_, _, BigUint<u64>, BitOr>(&a, b.clone()).limbs(), &expected);
    assert_eq!(ref_ref_via_val_ref::<_, _, BigUint<u64>, BitOr>(&a, &b).limbs(), &expected);
    assert_eq!(val_val_via_val_ref_commutative::<_, BitOr>(a.clone(), b.clone()).limbs(), &expected);
    assert_eq!(val_val_via_val_ref_commutative::<_, BitOr>(b.clone(), a.clone()).limbs(), &expected);
    assert_eq!(ref_val_via_val_ref_commutative::<_, BitOr>(&a, b.clone()).limbs(), &expected);
    assert_eq!(ref_val_via_val_ref_commutative::<_, BitOr>(&b, a.clone()).limbs(), &expected);
    assert_eq!(ref_ref_via_val_ref_commutative::<_, BitOr>(&a, &b).limbs(), &expected);
    assert_eq!(ref_ref_via_val_ref_commutative::<_, BitOr>(&b, &a).limbs(), &expected);
}

#[test]
fn or_of_narrow_limbs() {
    let a = narrow(&[0xf0, 0, 3]);
    let b = narrow(&[0x0f]);
    assert_eq!(ref_ref_via_val_ref_commutative::<_, BitOr>(&a, &b).limbs(), &vec![0xffu32, 0, 3]);
    assert_eq!(val_val_via_val_ref_commutative::<_, BitOr>(b, a).limbs(), &vec![0xffu32, 0, 3]);
    let zero = narrow(&[]);
    assert!(ref_ref_via_val_ref::<_, _, BigUint<u32>, BitOr>(&zero, &zero).is_zero());
}

#[test]
fn owned_operand_with_more_room_is_the_receiver() {
    let small = wide(&[1]);
    let mut roomy: Vec<u64> = Vec::with_capacity(1024);
    roomy.push(2);
    let large = BigUint::from_limbs(roomy);
    assert!(Operand::capacity(&small) < 1024);
    let out = val_val_via_val_ref_commutative::<_, BitOr>(small, large);
    assert_eq!(out.limbs(), &vec![3u64]);
    assert!(out.capacity() >= 1024);
}

#[test]
fn and_is_the_same_in_every_form() {
    let expected = vec![0x0fu64];
    let a = wide(&[0xff, 1]);
    let b = wide(&[0x0f]);
    assert_eq!(BitAnd::ref_ref(&a, &b).limbs(), &expected);
    assert_eq!(ref_val_via_ref_ref::<_, _, BigUint<u64>, BitAnd>(&a, b.clone()).limbs(), &expected);
    assert_eq!(val_ref_via_ref_ref::<_, _, BigUint<u64>, BitAnd>(a.clone(), &b).limbs(), &expected);
    assert_eq!(val_val_via_ref_ref::<_, _, BigUint<u64>, BitAnd>(a.clone(), b.clone()).limbs(), &expected);
    assert_eq!(val_val_via_ref_ref::<_, _, BigUint<u64>, BitAnd>(b, a).limbs(), &expected);
}

#[test]
fn and_that_leaves_nothing_is_zero() {
    let a = wide(&[1, 4]);
    let b = wide(&[2, 8]);
    assert!(BitAnd::ref_ref(&a, &b).is_zero());
    let c = narrow(&[0, 0, 1]);
    let d = narrow(&[5, 0, 1, 9]);
    assert_eq!(BitAnd::ref_ref(&c, &d).limbs(), &vec![0u32, 0, 1]);
    assert_eq!(BitAnd::ref_ref(&d, &narrow(&[4, 7])).limbs(), &vec![4u32]);
}

#[test]
fn bitwise_assignment_in_place() {
    let mut value = wide(&[0b1010]);
    assign_val_via_assign_ref::<_, _, BitOr>(&mut value, wide(&[0b0110, 1]));
    assert_eq!(value.limbs(), &vec![0b1110u64, 1]);
    <BitAnd as AssignRef<_, _>>::assign_ref(&mut value, &wide(&[0b0111]));
    assert_eq!(value.limbs(), &vec![0b0110u64]);
    assign_val_via_assign_ref::<_, _, BitAnd>(&mut value, wide(&[1]));
    assert!(value.is_zero());
}

#[test]
fn or_folds_from_zero() {
    let items = vec![wide(&[1]), wide(&[0, 2]), wide(&[4])];
    assert!(<BitOr as Seeded<BigUint<u64>, BigUint<u64>>>::seed().is_zero());
    assert_eq!(fold_refs::<BigUint<u64>, BigUint<u64>, BitOr>(&items).limbs(), &vec![5u64, 2]);
    assert!(fold_refs::<BigUint<u64>, BigUint<u64>, BitOr>(&[]).is_zero());
}

#[test]
fn lent_items_fold_in_order() {
    assert_eq!(fold_refs::<i64, i64, Minus>(&[1, 20, 300]), 100 - 1 - 20 - 300);
    assert_eq!(fold_refs::<i64, i64, Minus>(&[]), 100);
}

fn commutes<T: Commutative<BigUint<u64>, BigUint<u64>, BigUint<u64>>>() -> bool {
    true
}

#[test]
fn commutative_marker_is_held_by_the_bitwise_operators() {
    assert!(commutes::<BitOr>());
    assert!(commutes::<BitAnd>());
}

#[test]
fn adding_a_word_carries_into_a_new_limb() {
    assert_eq!(<Add as ValVal<_, u32, _>>::val_val(wide(&[u64::MAX]), 1).limbs(), &vec![0u64, 1]);
    assert_eq!(
        <Add as ValVal<_, u32, _>>::val_val(narrow(&[u32::MAX, u32::MAX]), 1).limbs(),
        &vec![0u32, 0, 1]
    );
    assert_eq!(<Add as ValVal<_, u32, _>>::val_val(wide(&[]), 5).limbs(), &vec![5u64]);
    assert!(<Add as ValVal<_, u32, _>>::val_val(wide(&[]), 0).is_zero());
    assert_eq!(
        <Add as ValVal<_, u32, _>>::val_val(wide(&[u64::MAX, 7]), u32::MAX).limbs(),
        &vec![0xffff_fffeu64, 8]
    );
    assert_eq!(<Add as ValVal<_, u32, _>>::val_val(wide(&[9, 7]), 0).limbs(), &vec![9u64, 7]);
}

#[test]
fn adding_a_word_is_the_same_in_every_form() {
    let expected = vec![0u64, 1];
    let a = wide(&[u64::MAX]);
    assert_eq!(val_ref_via_val_val::<_, u32, BigUint<u64>, Add>(a.clone(), &1).limbs(), &expected);
    assert_eq!(ref_val_via_val_val::<_, u32, BigUint<u64>, Add>(&a, 1).limbs(), &expected);
    assert_eq!(ref_ref_via_val_val::<_, u32, BigUint<u64>, Add>(&a, &1).limbs(), &expected);
    assert_eq!(
        reversed_via_val_val::<BigUint<u64>, u32, BigUint<u64>, Add>(1, a.clone()).limbs(),
        &expected
    );
    assert_eq!(<Add as ValVal<u32, _, _>>::val_val(1, a.clone()).limbs(), &expected);
    assert_eq!(promote_right::<_, u8, u32, BigUint<u64>, Add>(a.clone(), 1u8).limbs(), &expected);
    assert_eq!(promote_right::<_, u16, u32, BigUint<u64>, Add>(a.clone(), 1u16).limbs(), &expected);
    assert_eq!(promote_left::<u8, u32, _, BigUint<u64>, Add>(1u8, a.clone()).limbs(), &expected);
    let mut b = a.clone();
    Add::assign_val(&mut b, 1);
    assert_eq!(b.limbs(), &expected);
    let mut c = a.clone();
    promote_assign::<_, u16, u32, Add>(&mut c, 1u16);
    assert_eq!(c.limbs(), &expected);
}

#[test]
fn words_sum_into_an_integer() {
    let total = fold::<BigUint<u64>, u32, Add>(vec![u32::MAX, u32::MAX, 2]);
    assert_eq!(total.limbs(), &vec![0x2_0000_0000u64]);
    let narrow_total = fold::<BigUint<u32>, u32, Add>(vec![u32::MAX, u32::MAX, 2]);
    assert_eq!(narrow_total.limbs(), &vec![0u32, 2]);
    assert!(fold::<BigUint<u64>, u32, Add>(vec![]).is_zero());
    assert!(fold::<BigUint<u64>, u32, Add>(vec![0, 0, 0]).is_zero());
}

#[test]
fn remainder_by_a_word() {
    let a = wide(&[5, 1]);
    assert!(Rem::ref_val(&a, 7).is_zero());
    assert_eq!(Rem::ref_val(&a, 10).limbs(), &vec![1u64]);
    let b = narrow(&[5, 0, 1]);
    assert!(Rem::ref_val(&b, 7).is_zero());
    assert_eq!(Rem::ref_val(&b, 10).limbs(), &vec![1u32]);
    assert_eq!(Rem::ref_val(&wide(&[u64::MAX]), u32::MAX).limbs(), &Vec::<u64>::new());
    assert_eq!(Rem::ref_val(&wide(&[u64::MAX, u64::MAX]), 1_000_000_007).limbs(), &vec![
        (u128::MAX % 1_000_000_007) as u64
    ]);
    assert_eq!(Rem::ref_val(&wide(&[]), 3).limbs(), &Vec::<u64>::new());
}

#[test]
fn remainder_is_the_same_in_every_form() {
    let a = wide(&[5, 1]);
    assert_eq!(val_val_via_ref_val::<_, u32, BigUint<u64>, Rem>(a.clone(), 10).limbs(), &vec![1u64]);
    assert_eq!(val_ref_via_ref_val::<_, u32, BigUint<u64>, Rem>(a.clone(), &10).limbs(), &vec![1u64]);
    assert_eq!(ref_ref_via_ref_val::<_, u32, BigUint<u64>, Rem>(&a, &10).limbs(), &vec![1u64]);
}
