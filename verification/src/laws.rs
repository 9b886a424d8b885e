//! General laws of the saga engine, proved from the outcome relation
//! [`can_tell`] that [`Saga::tell`](crate::Saga::tell) ensures.

use vstd::prelude::*;

verus! {

use crate::{Adventure, Failure, can_revert, can_tell};

/// Applies `fs[i]`, `fs[i + 1]`, ..., `fs[fs.len() - 1]` in order, starting
/// from `a`.
pub open spec fn apply_from<T>(fs: Seq<spec_fn(T) -> T>, i: int, a: T) -> T
    decreases fs.len() - i,
{
    if i < 0 || i >= fs.len() {
        a
    } else {
        apply_from(fs, i + 1, fs[i](a))
    }
}

/// Applies `gs[n - 1]`, `gs[n - 2]`, ..., `gs[0]` in order, starting from
/// `a`.
pub open spec fn undo_below<T>(gs: Seq<spec_fn(T) -> T>, n: int, a: T) -> T
    decreases n,
{
    if n <= 0 {
        a
    } else {
        undo_below(gs, n - 1, gs[n - 1](a))
    }
}

/// Case analysis on a possible outcome of telling a saga from index `i`:
/// either the run is already past the end and returned its accumulator, or
/// the adventure at `i` ran forward — succeeding into the rest of the run,
/// or failing into compensation from `i` down to 0.
pub proof fn lemma_tell_inversion<T, E, F, B>(
    s: Seq<Adventure<T, E, F, B>>,
    i: int,
    acc: T,
    r: Result<T, Failure<T, E>>,
) where
    F: Fn(T) -> Result<T, Failure<T, E>>,
    B: Fn(T) -> T,

    requires
        0 <= i <= s.len(),
        can_tell(s, i, acc, r),
    ensures
        i == s.len() ==> r == Ok::<T, Failure<T, E>>(acc),
        i < s.len() ==> ((exists|a1: T|
            #[trigger] call_ensures(s[i].forward_op(), (acc,), Ok::<T, Failure<T, E>>(a1))
                && can_tell(s, i + 1, a1, r)) || (exists|fl: Failure<T, E>|
            #[trigger] call_ensures(s[i].forward_op(), (acc,), Err::<T, Failure<T, E>>(fl)) && (
            r matches Err(out) && out.error == fl.error && can_revert(s, i, fl.acc, out.acc)))),
{
}

/// Case analysis on a possible compensation from index `k`: its entry value
/// passed through the backward operation at `k`, and what came out either is
/// the final accumulator (at index 0) or entered the compensation below.
pub proof fn lemma_revert_inversion<T, E, F, B>(
    s: Seq<Adventure<T, E, F, B>>,
    k: int,
    acc: T,
    out: T,
) where
    F: Fn(T) -> Result<T, Failure<T, E>>,
    B: Fn(T) -> T,

    requires
        0 <= k < s.len(),
        can_revert(s, k, acc, out),
    ensures
        exists|a1: T|
            #[trigger] call_ensures(s[k].backward_op(), (acc,), a1) && if k == 0 {
                out == a1
            } else {
                can_revert(s, k - 1, a1, out)
            },
{
}

/// Identity on success: if every forward operation always succeeds and acts
/// as the transformation `fs[j]`, then telling the saga from index `i` can
/// only return `Ok` of those transformations applied in order.
pub proof fn lemma_identity_on_success<T, E, F, B>(
    s: Seq<Adventure<T, E, F, B>>,
    fs: Seq<spec_fn(T) -> T>,
    i: int,
    acc: T,
    r: Result<T, Failure<T, E>>,
) where
    F: Fn(T) -> Result<T, Failure<T, E>>,
    B: Fn(T) -> T,

    requires
        fs.len() == s.len(),
        0 <= i <= s.len(),
        forall|j: int, x: T, y: Result<T, Failure<T, E>>|
            0 <= j < s.len() && #[trigger] call_ensures(s[j].forward_op(), (x,), y) ==> y == Ok::<
                T,
                Failure<T, E>,
            >(fs[j](x)),
        can_tell(s, i, acc, r),
    ensures
        r == Ok::<T, Failure<T, E>>(apply_from(fs, i, acc)),
    decreases s.len() - i,
{
    if i < s.len() {
        if exists|a1: T|
            #[trigger] call_ensures(s[i].forward_op(), (acc,), Ok::<T, Failure<T, E>>(a1))
                && can_tell(s, i + 1, a1, r) {
            let a1 = choose|a1: T|
                #[trigger] call_ensures(s[i].forward_op(), (acc,), Ok::<T, Failure<T, E>>(a1))
                    && can_tell(s, i + 1, a1, r);
            assert(a1 == fs[i](acc));
            lemma_identity_on_success(s, fs, i + 1, a1, r);
        } else {
            let fl = choose|fl: Failure<T, E>|
                #[trigger] call_ensures(s[i].forward_op(), (acc,), Err::<T, Failure<T, E>>(fl));
            assert(false);
        }
    }
}

/// Compensation applies the backward operations of exactly the adventures
/// `k`, `k - 1`, ..., `0`, in that order: if every backward operation acts
/// as the transformation `gs[j]`, the compensated accumulator is those
/// transformations folded in decreasing index order over the entry value.
pub proof fn lemma_revert_in_order<T, E, F, B>(
    s: Seq<Adventure<T, E, F, B>>,
    gs: Seq<spec_fn(T) -> T>,
    k: int,
    acc: T,
    out: T,
) where
    F: Fn(T) -> Result<T, Failure<T, E>>,
    B: Fn(T) -> T,

    requires
        gs.len() == s.len(),
        0 <= k < s.len(),
        forall|j: int, x: T, y: T|
            0 <= j < s.len() && #[trigger] call_ensures(s[j].backward_op(), (x,), y) ==> y == gs[j](
                x,
            ),
        can_revert(s, k, acc, out),
    ensures
        out == undo_below(gs, k + 1, acc),
    decreases k,
{
    let a1 = choose|a1: T|
        #[trigger] call_ensures(s[k].backward_op(), (acc,), a1) && if k <= 0 {
            out == a1
        } else {
            can_revert(s, k - 1, a1, out)
        };
    assert(a1 == gs[k](acc));
    assert(undo_below(gs, k + 1, acc) == undo_below(gs, k, gs[k](acc)));
    if k > 0 {
        lemma_revert_in_order(s, gs, k - 1, a1, out);
    } else {
        assert(undo_below(gs, 0, gs[0](acc)) == gs[0](acc));
    }
}

/// Compensation never consults an adventure beyond its starting index: a
/// compensation chain of `s1` from index `k` down to 0 is also one of any
/// saga `s2` that holds the same backward operations at indices 0 through
/// `k`, whatever the two sagas hold elsewhere.
pub proof fn lemma_revert_frame<T, E, F, B>(
    s1: Seq<Adventure<T, E, F, B>>,
    s2: Seq<Adventure<T, E, F, B>>,
    k: int,
    acc: T,
    out: T,
) where
    F: Fn(T) -> Result<T, Failure<T, E>>,
    B: Fn(T) -> T,

    requires
        0 <= k,
        can_revert(s1, k, acc, out),
        forall|j: int| 0 <= j <= k ==> #[trigger] s2[j].backward_op() == s1[j].backward_op(),
    ensures
        can_revert(s2, k, acc, out),
    decreases k,
{
    let a1 = choose|a1: T|
        #[trigger] call_ensures(s1[k].backward_op(), (acc,), a1) && if k <= 0 {
            out == a1
        } else {
            can_revert(s1, k - 1, a1, out)
        };
    if k > 0 {
        lemma_revert_frame(s1, s2, k - 1, a1, out);
    }
    assert(call_ensures(s2[k].backward_op(), (acc,), a1));
}

/// Round-trip cancellation, generalized over the starting index: if every
/// backward operation acts as `gs[j]`, and `gs[j]` undoes whatever its
/// forward operation produced — on the success branch as well as on the
/// failure branch — then a failing run entered at index `i` ends with the
/// accumulator `undo_below(gs, i, acc)`.
pub proof fn lemma_round_trip_from<T, E, F, B>(
    s: Seq<Adventure<T, E, F, B>>,
    gs: Seq<spec_fn(T) -> T>,
    i: int,
    acc: T,
    r: Result<T, Failure<T, E>>,
) where
    F: Fn(T) -> Result<T, Failure<T, E>>,
    B: Fn(T) -> T,

    requires
        gs.len() == s.len(),
        0 <= i <= s.len(),
        forall|j: int, x: T, y: T|
            0 <= j < s.len() && #[trigger] call_ensures(s[j].backward_op(), (x,), y) ==> y == gs[j](
                x,
            ),
        forall|j: int, x: T, y: T|
            0 <= j < s.len() && #[trigger] call_ensures(s[j].forward_op(), (x,), Ok::<
                T,
                Failure<T, E>,
            >(y)) ==> gs[j](y) == x,
        forall|j: int, x: T, fl: Failure<T, E>|
            0 <= j < s.len() && #[trigger] call_ensures(s[j].forward_op(), (x,), Err::<
                T,
                Failure<T, E>,
            >(fl)) ==> gs[j](fl.acc) == x,
        can_tell(s, i, acc, r),
        r is Err,
    ensures
        r matches Err(out) && out.acc == undo_below(gs, i, acc),
    decreases s.len() - i,
{
    assert(i < s.len());
    if exists|a1: T|
        #[trigger] call_ensures(s[i].forward_op(), (acc,), Ok::<T, Failure<T, E>>(a1))
            && can_tell(s, i + 1, a1, r) {
        let a1 = choose|a1: T|
            #[trigger] call_ensures(s[i].forward_op(), (acc,), Ok::<T, Failure<T, E>>(a1))
                && can_tell(s, i + 1, a1, r);
        lemma_round_trip_from(s, gs, i + 1, a1, r);
        assert(undo_below(gs, i + 1, a1) == undo_below(gs, i, gs[i](a1)));
    } else {
        let fl = choose|fl: Failure<T, E>|
            #[trigger] call_ensures(s[i].forward_op(), (acc,), Err::<T, Failure<T, E>>(fl)) && (
            r matches Err(out) && out.error == fl.error && can_revert(s, i, fl.acc, out.acc));
        let out = r->Err_0;
        lemma_revert_in_order(s, gs, i, fl.acc, out.acc);
        assert(undo_below(gs, i + 1, fl.acc) == undo_below(gs, i, gs[i](fl.acc)));
    }
}

/// Round-trip cancellation: if each adventure's backward operation is the
/// exact inverse of its forward operation — undoing the success value as
/// well as the value handed out alongside a failure — then a failing run of
/// the whole saga returns the accumulator it was entered with.
pub proof fn lemma_round_trip<T, E, F, B>(
    s: Seq<Adventure<T, E, F, B>>,
    gs: Seq<spec_fn(T) -> T>,
    acc: T,
    r: Result<T, Failure<T, E>>,
) where
    F: Fn(T) -> Result<T, Failure<T, E>>,
    B: Fn(T) -> T,

    requires
        gs.len() == s.len(),
        forall|j: int, x: T, y: T|
            0 <= j < s.len() && #[trigger] call_ensures(s[j].backward_op(), (x,), y) ==> y == gs[j](
                x,
            ),
        forall|j: int, x: T, y: T|
            0 <= j < s.len() && #[trigger] call_ensures(s[j].forward_op(), (x,), Ok::<
                T,
                Failure<T, E>,
            >(y)) ==> gs[j](y) == x,
        forall|j: int, x: T, fl: Failure<T, E>|
            0 <= j < s.len() && #[trigger] call_ensures(s[j].forward_op(), (x,), Err::<
                T,
                Failure<T, E>,
            >(fl)) ==> gs[j](fl.acc) == x,
        can_tell(s, 0, acc, r),
        r is Err,
    ensures
        r matches Err(out) && out.acc == acc,
{
    lemma_round_trip_from(s, gs, 0, acc, r);
}

/// Error transparency: a failing run returns exactly an error that some
/// adventure's forward operation raised — never a transformed one.
pub proof fn lemma_error_transparency<T, E, F, B>(
    s: Seq<Adventure<T, E, F, B>>,
    i: int,
    acc: T,
    r: Result<T, Failure<T, E>>,
) where
    F: Fn(T) -> Result<T, Failure<T, E>>,
    B: Fn(T) -> T,

    requires
        0 <= i <= s.len(),
        can_tell(s, i, acc, r),
        r is Err,
    ensures
        exists|k: int, x: T, fl: Failure<T, E>|
            i <= k < s.len() && #[trigger] call_ensures(s[k].forward_op(), (x,), Err::<
                T,
                Failure<T, E>,
            >(fl)) && fl.error == r->Err_0.error,
    decreases s.len() - i,
{
    assert(i < s.len());
    if exists|a1: T|
        #[trigger] call_ensures(s[i].forward_op(), (acc,), Ok::<T, Failure<T, E>>(a1))
            && can_tell(s, i + 1, a1, r) {
        let a1 = choose|a1: T|
            #[trigger] call_ensures(s[i].forward_op(), (acc,), Ok::<T, Failure<T, E>>(a1))
                && can_tell(s, i + 1, a1, r);
        lemma_error_transparency(s, i + 1, a1, r);
    } else {
        let fl = choose|fl: Failure<T, E>|
            #[trigger] call_ensures(s[i].forward_op(), (acc,), Err::<T, Failure<T, E>>(fl)) && (
            r matches Err(out) && out.error == fl.error && can_revert(s, i, fl.acc, out.acc));
        assert(i <= i < s.len() && call_ensures(s[i].forward_op(), (acc,), Err::<T, Failure<T, E>>(
            fl,
        )) && fl.error == r->Err_0.error);
    }
}

/// An empty saga returns its entry accumulator unchanged, and cannot fail.
pub proof fn lemma_empty_saga<T, E, F, B>(
    s: Seq<Adventure<T, E, F, B>>,
    acc: T,
    r: Result<T, Failure<T, E>>,
) where
    F: Fn(T) -> Result<T, Failure<T, E>>,
    B: Fn(T) -> T,

    requires
        s.len() == 0,
        can_tell(s, 0, acc, r),
    ensures
        r == Ok::<T, Failure<T, E>>(acc),
{
}

/// Single-step boundary: when a one-adventure saga fails, the result is
/// explained by exactly one backward call — the failing adventure
/// compensating its own failure value — and carries that failure's error.
pub proof fn lemma_single_step_failure<T, E, F, B>(
    s: Seq<Adventure<T, E, F, B>>,
    acc: T,
    r: Result<T, Failure<T, E>>,
) where
    F: Fn(T) -> Result<T, Failure<T, E>>,
    B: Fn(T) -> T,

    requires
        s.len() == 1,
        can_tell(s, 0, acc, r),
        r is Err,
    ensures
        exists|fl: Failure<T, E>|
            #[trigger] call_ensures(s[0].forward_op(), (acc,), Err::<T, Failure<T, E>>(fl))
                && r->Err_0.error == fl.error && call_ensures(
                s[0].backward_op(),
                (fl.acc,),
                r->Err_0.acc,
            ),
{
    if exists|a1: T|
        #[trigger] call_ensures(s[0].forward_op(), (acc,), Ok::<T, Failure<T, E>>(a1))
            && can_tell(s, 1, a1, r) {
        let a1 = choose|a1: T|
            #[trigger] call_ensures(s[0].forward_op(), (acc,), Ok::<T, Failure<T, E>>(a1))
                && can_tell(s, 1, a1, r);
        assert(r == Ok::<T, Failure<T, E>>(a1));
        assert(false);
    } else {
        let fl = choose|fl: Failure<T, E>|
            #[trigger] call_ensures(s[0].forward_op(), (acc,), Err::<T, Failure<T, E>>(fl)) && (
            r matches Err(out) && out.error == fl.error && can_revert(s, 0, fl.acc, out.acc));
        assert(can_revert(s, 0, fl.acc, r->Err_0.acc));
        let a1 = choose|a1: T|
            #[trigger] call_ensures(s[0].backward_op(), (fl.acc,), a1) && r->Err_0.acc == a1;
        assert(call_ensures(s[0].forward_op(), (acc,), Err::<T, Failure<T, E>>(fl))
            && r->Err_0.error == fl.error && call_ensures(s[0].backward_op(), (fl.acc,), r->Err_0.acc));
    }
}

} // verus!
