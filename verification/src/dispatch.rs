//! Forwarding: one body per operator, every way of passing the operands.
//!
//! An operator is written once, in the form that is cheapest for it: both
//! operands borrowed, or the left one owned so that its storage can be used
//! again for the result. Every other form is a function of this file that
//! hands its operands on to that one body. Forwarding decides which storage
//! is used again and which operand is copied, never what comes out.

use vstd::prelude::*;

verus! {

/// What an operator means: on which operands it is defined, and what it
/// gives. Operands and result are taken by their views, so the meaning does
/// not depend on how an operand is passed or where it is stored.
pub trait Operator<L: View, R: View, O: View> {
    /// Whether the operator is defined on these operands.
    spec fn defined(lhs: L::V, rhs: R::V) -> bool;

    /// What the operator gives on these operands.
    spec fn result(lhs: L::V, rhs: R::V) -> O::V;
}

/// An operator whose body takes both operands by value.
pub trait ValVal<L: View, R: View, O: View>: Operator<L, R, O> {
    fn val_val(lhs: L, rhs: R) -> (out: O)
        requires
            Self::defined(lhs@, rhs@),
        ensures
            out@ == Self::result(lhs@, rhs@),
    ;
}

/// An operator whose body owns its left operand and borrows the right one.
pub trait ValRef<L: View, R: View, O: View>: Operator<L, R, O> {
    fn val_ref(lhs: L, rhs: &R) -> (out: O)
        requires
            Self::defined(lhs@, rhs@),
        ensures
            out@ == Self::result(lhs@, rhs@),
    ;
}

/// An operator whose body borrows its left operand and owns the right one.
pub trait RefVal<L: View, R: View, O: View>: Operator<L, R, O> {
    fn ref_val(lhs: &L, rhs: R) -> (out: O)
        requires
            Self::defined(lhs@, rhs@),
        ensures
            out@ == Self::result(lhs@, rhs@),
    ;
}

/// An operator whose body borrows both operands.
pub trait RefRef<L: View, R: View, O: View>: Operator<L, R, O> {
    fn ref_ref(lhs: &L, rhs: &R) -> (out: O)
        requires
            Self::defined(lhs@, rhs@),
        ensures
            out@ == Self::result(lhs@, rhs@),
    ;
}

/// An operator whose body works on its left operand in place and owns the
/// right one.
pub trait AssignVal<L: View, R: View>: Operator<L, R, L> {
    fn assign_val(lhs: &mut L, rhs: R)
        requires
            Self::defined(old(lhs)@, rhs@),
        ensures
            final(lhs)@ == Self::result(old(lhs)@, rhs@),
    ;
}

/// An operator whose body works on its left operand in place and borrows the
/// right one.
pub trait AssignRef<L: View, R: View>: Operator<L, R, L> {
    fn assign_ref(lhs: &mut L, rhs: &R)
        requires
            Self::defined(old(lhs)@, rhs@),
        ensures
            final(lhs)@ == Self::result(old(lhs)@, rhs@),
    ;
}

/// An operator that gives the same whichever way round its operands stand.
/// Its meaning with the operands reversed is a meaning of its own, and the
/// law says that the two agree.
pub trait Commutative<L: View, R: View, O: View>: Operator<L, R, O> + Operator<R, L, O> {
    proof fn lemma_commutes(lhs: L::V, rhs: R::V)
        ensures
            <Self as Operator<R, L, O>>::defined(rhs, lhs) == <Self as Operator<L, R, O>>::defined(
                lhs,
                rhs,
            ),
            <Self as Operator<R, L, O>>::result(rhs, lhs) == <Self as Operator<L, R, O>>::result(
                lhs,
                rhs,
            ),
    ;
}

/// An operator with a value to start a fold from: zero for a sum, one for a
/// product.
pub trait Seeded<T: View, U: View>: Operator<T, U, T> {
    /// The view of the value that a fold starts from.
    spec fn seed_view() -> T::V;

    fn seed() -> (start: T)
        ensures
            start@ == Self::seed_view(),
    ;
}

/// An operand that can be copied into storage of its own.
pub trait Duplicate: View + Sized {
    /// An operand of the same view in storage of its own.
    fn duplicate(&self) -> (copy: Self)
        ensures
            copy@ == self@,
    ;
}

/// An operand with storage that a result can be built in. Its two measures
/// say which of two operands is the better receiver; they decide nothing
/// about the result.
pub trait Operand: Duplicate {
    /// How much the operand has room for: the measure by which the receiver
    /// is chosen where both operands are owned.
    fn capacity(&self) -> usize;

    /// How much the operand holds: the measure by which the operand to copy
    /// is chosen where both are borrowed.
    fn len(&self) -> usize;
}

/// A scalar that is made wider before an operator takes it. Widening is
/// exact: the wider scalar stands for the same number.
pub trait Widen<W: Integer>: Integer {
    /// The scalar as a value of the wider type.
    spec fn widened(self) -> W;

    /// The wider scalar stands for the same number.
    proof fn lemma_widened_exact(self)
        ensures
            self.widened() as int == self as int,
    ;

    fn widen(self) -> (wide: W)
        ensures
            wide == self.widened(),
            wide as int == self as int,
    ;
}

/// Whether the left of two operands is the receiver: the one whose storage
/// the result is built in. It is the larger by the given measure, and the
/// left one where they measure the same.
pub fn left_is_receiver(left_measure: usize, right_measure: usize) -> (left: bool)
    ensures
        left == (left_measure >= right_measure),
{
    left_measure >= right_measure
}

// By the body that owns the left operand and borrows the right one.

/// Owned and owned: the right operand is lent.
pub fn val_val_via_val_ref<L: View, R: View, O: View, Op: ValRef<L, R, O>>(lhs: L, rhs: R) -> (out:
    O)
    requires
        Op::defined(lhs@, rhs@),
    ensures
        out@ == Op::result(lhs@, rhs@),
{
    Op::val_ref(lhs, &rhs)
}

/// Borrowed and owned: the left operand is copied, the right one lent.
pub fn ref_val_via_val_ref<L: Duplicate, R: View, O: View, Op: ValRef<L, R, O>>(
    lhs: &L,
    rhs: R,
) -> (out: O)
    requires
        Op::defined(lhs@, rhs@),
    ensures
        out@ == Op::result(lhs@, rhs@),
{
    Op::val_ref(lhs.duplicate(), &rhs)
}

/// Borrowed and borrowed: the left operand is copied.
pub fn ref_ref_via_val_ref<L: Duplicate, R: View, O: View, Op: ValRef<L, R, O>>(
    lhs: &L,
    rhs: &R,
) -> (out: O)
    requires
        Op::defined(lhs@, rhs@),
    ensures
        out@ == Op::result(lhs@, rhs@),
{
    Op::val_ref(lhs.duplicate(), rhs)
}

/// Owned and owned, for a commutative operator: the operand with more room
/// is the receiver, and nothing is copied.
pub fn val_val_via_val_ref_commutative<T: Operand, Op: ValRef<T, T, T> + Commutative<T, T, T>>(
    lhs: T,
    rhs: T,
) -> (out: T)
    requires
        Op::defined(lhs@, rhs@),
    ensures
        out@ == Op::result(lhs@, rhs@),
{
    proof {
        Op::lemma_commutes(lhs@, rhs@);
    }
    if left_is_receiver(lhs.capacity(), rhs.capacity()) {
        Op::val_ref(lhs, &rhs)
    } else {
        Op::val_ref(rhs, &lhs)
    }
}

/// Borrowed and owned, for a commutative operator: the owned right operand
/// is the receiver, and nothing is copied.
pub fn ref_val_via_val_ref_commutative<T: View, Op: ValRef<T, T, T> + Commutative<T, T, T>>(
    lhs: &T,
    rhs: T,
) -> (out: T)
    requires
        Op::defined(lhs@, rhs@),
    ensures
        out@ == Op::result(lhs@, rhs@),
{
    proof {
        Op::lemma_commutes(lhs@, rhs@);
    }
    Op::val_ref(rhs, lhs)
}

/// Borrowed and borrowed, for a commutative operator: the receiver is a copy
/// of the operand that holds more, so that the result has room in it.
pub fn ref_ref_via_val_ref_commutative<T: Operand, Op: ValRef<T, T, T> + Commutative<T, T, T>>(
    lhs: &T,
    rhs: &T,
) -> (out: T)
    requires
        Op::defined(lhs@, rhs@),
    ensures
        out@ == Op::result(lhs@, rhs@),
{
    proof {
        Op::lemma_commutes(lhs@, rhs@);
    }
    if left_is_receiver(lhs.len(), rhs.len()) {
        Op::val_ref(lhs.duplicate(), rhs)
    } else {
        Op::val_ref(rhs.duplicate(), lhs)
    }
}

// By the body that borrows both operands.

/// Borrowed and owned: the right operand is lent.
pub fn ref_val_via_ref_ref<L: View, R: View, O: View, Op: RefRef<L, R, O>>(lhs: &L, rhs: R) -> (out:
    O)
    requires
        Op::defined(lhs@, rhs@),
    ensures
        out@ == Op::result(lhs@, rhs@),
{
    Op::ref_ref(lhs, &rhs)
}

/// Owned and borrowed: the left operand is lent.
pub fn val_ref_via_ref_ref<L: View, R: View, O: View, Op: RefRef<L, R, O>>(lhs: L, rhs: &R) -> (out:
    O)
    requires
        Op::defined(lhs@, rhs@),
    ensures
        out@ == Op::result(lhs@, rhs@),
{
    Op::ref_ref(&lhs, rhs)
}

/// Owned and owned: both operands are lent.
pub fn val_val_via_ref_ref<L: View, R: View, O: View, Op: RefRef<L, R, O>>(lhs: L, rhs: R) -> (out:
    O)
    requires
        Op::defined(lhs@, rhs@),
    ensures
        out@ == Op::result(lhs@, rhs@),
{
    Op::ref_ref(&lhs, &rhs)
}

// By the body that borrows the left operand and owns the right one.

/// Owned and owned: the left operand is lent.
pub fn val_val_via_ref_val<L: View, R: View, O: View, Op: RefVal<L, R, O>>(lhs: L, rhs: R) -> (out:
    O)
    requires
        Op::defined(lhs@, rhs@),
    ensures
        out@ == Op::result(lhs@, rhs@),
{
    Op::ref_val(&lhs, rhs)
}

/// Owned and borrowed: the left operand is lent, the right one copied.
pub fn val_ref_via_ref_val<L: View, R: Duplicate, O: View, Op: RefVal<L, R, O>>(
    lhs: L,
    rhs: &R,
) -> (out: O)
    requires
        Op::defined(lhs@, rhs@),
    ensures
        out@ == Op::result(lhs@, rhs@),
{
    Op::ref_val(&lhs, rhs.duplicate())
}

/// Borrowed and borrowed: the right operand is copied.
pub fn ref_ref_via_ref_val<L: View, R: Duplicate, O: View, Op: RefVal<L, R, O>>(
    lhs: &L,
    rhs: &R,
) -> (out: O)
    requires
        Op::defined(lhs@, rhs@),
    ensures
        out@ == Op::result(lhs@, rhs@),
{
    Op::ref_val(lhs, rhs.duplicate())
}

// By the body that owns both operands.

/// Owned and borrowed: the right operand is copied.
pub fn val_ref_via_val_val<L: View, R: Duplicate, O: View, Op: ValVal<L, R, O>>(
    lhs: L,
    rhs: &R,
) -> (out: O)
    requires
        Op::defined(lhs@, rhs@),
    ensures
        out@ == Op::result(lhs@, rhs@),
{
    Op::val_val(lhs, rhs.duplicate())
}

/// Borrowed and owned: the left operand is copied.
pub fn ref_val_via_val_val<L: Duplicate, R: View, O: View, Op: ValVal<L, R, O>>(
    lhs: &L,
    rhs: R,
) -> (out: O)
    requires
        Op::defined(lhs@, rhs@),
    ensures
        out@ == Op::result(lhs@, rhs@),
{
    Op::val_val(lhs.duplicate(), rhs)
}

/// Borrowed and borrowed: both operands are copied.
pub fn ref_ref_via_val_val<L: Duplicate, R: Duplicate, O: View, Op: ValVal<L, R, O>>(
    lhs: &L,
    rhs: &R,
) -> (out: O)
    requires
        Op::defined(lhs@, rhs@),
    ensures
        out@ == Op::result(lhs@, rhs@),
{
    Op::val_val(lhs.duplicate(), rhs.duplicate())
}

/// A commutative operator with its operands the other way round from what
/// its body takes: a scalar on the left of an integer, handed to the body
/// that takes the scalar on the right. Only an operator that is commutative
/// can be forwarded so.
pub fn reversed_via_val_val<L: View, R: View, O: View, Op: ValVal<L, R, O> + Commutative<L, R, O>>(
    lhs: R,
    rhs: L,
) -> (out: O)
    requires
        <Op as Operator<R, L, O>>::defined(lhs@, rhs@),
    ensures
        out@ == <Op as Operator<R, L, O>>::result(lhs@, rhs@),
{
    proof {
        Op::lemma_commutes(rhs@, lhs@);
    }
    Op::val_val(rhs, lhs)
}

// Narrow scalars.

/// A narrow scalar on the right: it is widened and handed on by value.
pub fn promote_right<L: View, S: Widen<W>, W: View + Integer, O: View, Op: ValVal<L, W, O>>(
    lhs: L,
    rhs: S,
) -> (out: O)
    requires
        Op::defined(lhs@, rhs.widened()@),
    ensures
        out@ == Op::result(lhs@, rhs.widened()@),
{
    Op::val_val(lhs, rhs.widen())
}

/// A narrow scalar on the left: it is widened and handed on by value.
pub fn promote_left<S: Widen<W>, W: View + Integer, R: View, O: View, Op: ValVal<W, R, O>>(
    lhs: S,
    rhs: R,
) -> (out: O)
    requires
        Op::defined(lhs.widened()@, rhs@),
    ensures
        out@ == Op::result(lhs.widened()@, rhs@),
{
    Op::val_val(lhs.widen(), rhs)
}

// In place.

/// In place with an owned right operand, which is lent.
pub fn assign_val_via_assign_ref<L: View, R: View, Op: AssignRef<L, R>>(lhs: &mut L, rhs: R)
    requires
        Op::defined(old(lhs)@, rhs@),
    ensures
        final(lhs)@ == Op::result(old(lhs)@, rhs@),
{
    Op::assign_ref(lhs, &rhs)
}

/// In place with a narrow scalar, which is widened.
pub fn promote_assign<L: View, S: Widen<W>, W: View + Integer, Op: AssignVal<L, W>>(
    lhs: &mut L,
    rhs: S,
)
    requires
        Op::defined(old(lhs)@, rhs.widened()@),
    ensures
        final(lhs)@ == Op::result(old(lhs)@, rhs.widened()@),
{
    Op::assign_val(lhs, rhs.widen())
}

// Folds.

/// The views of the items, in order.
pub open spec fn views<U: View>(items: Seq<U>) -> Seq<U::V> {
    Seq::new(items.len(), |i: int| items[i]@)
}

/// What folding gives: the operator applied to `start` and the first item,
/// to that and the second item, and so on to the last.
pub open spec fn folded<T: View, U: View, Op: Operator<T, U, T>>(
    start: T::V,
    items: Seq<U::V>,
) -> T::V
    decreases items.len(),
{
    if items.len() == 0 {
        start
    } else {
        Op::result(folded::<T, U, Op>(start, items.drop_last()), items.last())
    }
}

/// Whether the operator is defined at every step of the fold.
pub open spec fn fold_defined<T: View, U: View, Op: Operator<T, U, T>>(
    start: T::V,
    items: Seq<U::V>,
) -> bool
    decreases items.len(),
{
    items.len() == 0 || (fold_defined::<T, U, Op>(start, items.drop_last()) && Op::defined(
        folded::<T, U, Op>(start, items.drop_last()),
        items.last(),
    ))
}

/// A fold that is defined is defined on every prefix of the items.
pub proof fn lemma_fold_defined_prefix<T: View, U: View, Op: Operator<T, U, T>>(
    start: T::V,
    items: Seq<U::V>,
    k: int,
)
    requires
        fold_defined::<T, U, Op>(start, items),
        0 <= k <= items.len(),
    ensures
        fold_defined::<T, U, Op>(start, items.take(k)),
    decreases items.len(),
{
    if k == items.len() {
        assert(items.take(k) =~= items);
    } else {
        lemma_fold_defined_prefix::<T, U, Op>(start, items.drop_last(), k);
        assert(items.drop_last().take(k) =~= items.take(k));
    }
}

/// An operator that is defined on all operands is defined at every step of
/// every fold.
pub proof fn lemma_fold_of_total<T: View, U: View, Op: Operator<T, U, T>>(
    start: T::V,
    items: Seq<U::V>,
)
    requires
        forall|acc: T::V, item: U::V| #[trigger] Op::defined(acc, item),
    ensures
        fold_defined::<T, U, Op>(start, items),
    decreases items.len(),
{
    if items.len() > 0 {
        lemma_fold_of_total::<T, U, Op>(start, items.drop_last());
    }
}

/// Folds the items into one value: a sum where the operator adds and starts
/// from zero, a product where it multiplies and starts from one. The items
/// are taken strictly in their order, each exactly once, none passed over.
pub fn fold<T: View, U: View, Op: ValVal<T, U, T> + Seeded<T, U>>(items: Vec<U>) -> (total: T)
    requires
        fold_defined::<T, U, Op>(Op::seed_view(), views(items@)),
    ensures
        total@ == folded::<T, U, Op>(Op::seed_view(), views(items@)),
{
    let ghost all = views(items@);
    let mut acc: T = Op::seed();
    for item in iter: items
        invariant
            views(iter.seq()) == all,
            fold_defined::<T, U, Op>(Op::seed_view(), all),
            acc@ == folded::<T, U, Op>(Op::seed_view(), all.take(iter.index() as int)),
    {
        proof {
            let k = iter.index() as int;
            lemma_fold_defined_prefix::<T, U, Op>(Op::seed_view(), all, k + 1);
            assert(all.take(k + 1).drop_last() =~= all.take(k));
        }
        acc = Op::val_val(acc, item);
    }
    assert(all.take(all.len() as int) =~= all);
    acc
}

/// Folds items that are only lent, by the body that borrows its right
/// operand. The items are taken strictly in their order, each exactly once,
/// none passed over.
pub fn fold_refs<T: View, U: View, Op: ValRef<T, U, T> + Seeded<T, U>>(items: &[U]) -> (total: T)
    requires
        fold_defined::<T, U, Op>(Op::seed_view(), views(items@)),
    ensures
        total@ == folded::<T, U, Op>(Op::seed_view(), views(items@)),
{
    let ghost all = views(items@);
    let n: usize = items.len();
    let mut acc: T = Op::seed();
    let mut i: usize = 0;
    while i < n
        invariant
            n == items.len(),
            i <= n,
            all == views(items@),
            fold_defined::<T, U, Op>(Op::seed_view(), all),
            acc@ == folded::<T, U, Op>(Op::seed_view(), all.take(i as int)),
        decreases n - i,
    {
        proof {
            lemma_fold_defined_prefix::<T, U, Op>(Op::seed_view(), all, i + 1);
            assert(all.take(i + 1).drop_last() =~= all.take(i as int));
        }
        acc = Op::val_ref(acc, &items[i]);
        i = i + 1;
    }
    assert(all.take(n as int) =~= all);
    acc
}

} // verus!
