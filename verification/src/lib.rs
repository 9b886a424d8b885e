//! A compensation-based execution engine in the saga style.
//!
//! A [`Saga`] owns an ordered list of [`Adventure`]s, each a pair of a
//! forward operation and a backward (compensating) operation over one
//! accumulator type. [`Saga::tell`] threads an accumulator through the
//! forward operations in order; as soon as one of them fails, the engine
//! walks backward from the failing index down to index 0, applying each
//! adventure's backward operation in turn, and returns the original error
//! together with the fully compensated accumulator.
//!
//! The behaviour of `tell` is pinned down by the relation [`can_tell`]:
//! every result the engine may return is explained by a chain of forward
//! calls, and — on failure — a chain of backward calls through exactly the
//! indices from the failing step down to 0, carrying the error unchanged.
//! General consequences of that relation (identity on success, round-trip
//! cancellation, and the like) are proved in [`laws`].

use vstd::prelude::*;

pub mod laws;

verus! {

use core::marker::PhantomData;

/// The failure carrier: pairs the error raised by a forward operation with
/// the accumulator value, which compensation rewrites while the error is
/// carried through unchanged.
pub struct Failure<T, E> {
    /// The error raised by the failing forward operation, returned verbatim.
    pub error: E,
    /// The accumulator: at creation, the failing operation's output; in the
    /// final result, the fully compensated value.
    pub acc: T,
}

/// One reversible unit of a saga: a forward operation that either produces
/// the next accumulator or fails with a [`Failure`], and a backward
/// operation that compensates it.
///
/// The engine treats both operations as opaque; it is the caller's
/// obligation that the backward operation can consume whatever accumulator
/// its own forward operation hands out alongside a failure.
#[verifier::reject_recursive_types(T)]
#[verifier::reject_recursive_types(E)]
pub struct Adventure<T, E, F, B> where
    F: Fn(T) -> Result<T, Failure<T, E>>,
    B: Fn(T) -> T,
{
    forward: F,
    backward: B,
    marker: PhantomData<(T, E)>,
}

impl<T, E, F, B> Adventure<T, E, F, B> where
    F: Fn(T) -> Result<T, Failure<T, E>>,
    B: Fn(T) -> T,
{
    /// The forward operation, as a spec-level value.
    pub closed spec fn forward_op(&self) -> F {
        self.forward
    }

    /// The backward operation, as a spec-level value.
    pub closed spec fn backward_op(&self) -> B {
        self.backward
    }

    /// Creates a new adventure from a forward and a backward operation.
    pub fn new(forward: F, backward: B) -> (adv: Self)
        ensures
            adv.forward_op() == forward,
            adv.backward_op() == backward,
    {
        Adventure { forward, backward, marker: PhantomData }
    }

    /// Applies the forward operation to the accumulator.
    fn forward(&self, acc: T) -> (r: Result<T, Failure<T, E>>)
        requires
            call_requires(self.forward_op(), (acc,)),
        ensures
            call_ensures(self.forward_op(), (acc,), r),
    {
        (self.forward)(acc)
    }

    /// Applies the backward operation to the accumulator.
    fn backward(&self, acc: T) -> (r: T)
        requires
            call_requires(self.backward_op(), (acc,)),
        ensures
            call_ensures(self.backward_op(), (acc,), r),
    {
        (self.backward)(acc)
    }
}

/// A saga of many adventures that can be told.
#[verifier::reject_recursive_types(T)]
#[verifier::reject_recursive_types(E)]
pub struct Saga<T, E, F, B> where
    F: Fn(T) -> Result<T, Failure<T, E>>,
    B: Fn(T) -> T,
{
    adventures: Vec<Adventure<T, E, F, B>>,
}

/// Every forward operation of `s` at an index at or past `i` accepts every
/// accumulator value.
pub open spec fn forward_callable_from<T, E, F, B>(s: Seq<Adventure<T, E, F, B>>, i: int) -> bool where
    F: Fn(T) -> Result<T, Failure<T, E>>,
    B: Fn(T) -> T,
{
    forall|j: int, x: T| i <= j < s.len() ==> #[trigger] call_requires(s[j].forward_op(), (x,))
}

/// Every backward operation of `s` at an index below `n` accepts every
/// accumulator value.
pub open spec fn backward_callable_below<T, E, F, B>(s: Seq<Adventure<T, E, F, B>>, n: int) -> bool where
    F: Fn(T) -> Result<T, Failure<T, E>>,
    B: Fn(T) -> T,
{
    forall|j: int, x: T| 0 <= j < n ==> #[trigger] call_requires(s[j].backward_op(), (x,))
}

/// Compensation from index `k` down to index 0: some chain of accumulator
/// values starts at `acc`, passes through the backward operation of each of
/// the adventures `k`, `k - 1`, ..., `0`, in that order and each exactly
/// once, and ends at `out`.
pub open spec fn can_revert<T, E, F, B>(s: Seq<Adventure<T, E, F, B>>, k: int, acc: T, out: T) -> bool where
    F: Fn(T) -> Result<T, Failure<T, E>>,
    B: Fn(T) -> T,
    decreases k,
{
    exists|a1: T|
        #[trigger] call_ensures(s[k].backward_op(), (acc,), a1) && if k <= 0 {
            out == a1
        } else {
            can_revert(s, k - 1, a1, out)
        }
}

/// The possible outcomes of telling the adventures of `s` from index `i` on,
/// entered with accumulator `acc`.
///
/// `Ok(v)` is possible exactly when a chain of successful forward calls runs
/// from `acc` through the adventures `i`, `i + 1`, ..., in order, and ends at
/// `v`. `Err(out)` is possible exactly when such a chain reaches some index
/// at which the forward operation fails with a [`Failure`] `fl`, and
/// compensation ([`can_revert`]) from that index down to 0, entered with
/// `fl.acc`, ends at `out.acc` — while `out.error` is exactly `fl.error`.
pub open spec fn can_tell<T, E, F, B>(
    s: Seq<Adventure<T, E, F, B>>,
    i: int,
    acc: T,
    r: Result<T, Failure<T, E>>,
) -> bool where
    F: Fn(T) -> Result<T, Failure<T, E>>,
    B: Fn(T) -> T,
    decreases s.len() - i,
{
    if i >= s.len() {
        r == Ok::<T, Failure<T, E>>(acc)
    } else {
        (exists|a1: T|
            #[trigger] call_ensures(s[i].forward_op(), (acc,), Ok::<T, Failure<T, E>>(a1))
                && can_tell(s, i + 1, a1, r)) || (exists|fl: Failure<T, E>|
            #[trigger] call_ensures(s[i].forward_op(), (acc,), Err::<T, Failure<T, E>>(fl))
                && (r matches Err(out) && out.error == fl.error && can_revert(s, i, fl.acc, out.acc)))
    }
}

impl<T, E, F, B> Saga<T, E, F, B> where
    F: Fn(T) -> Result<T, Failure<T, E>>,
    B: Fn(T) -> T,
{
    /// The adventures of this saga, in order, as a spec-level sequence.
    pub closed spec fn adventures(&self) -> Seq<Adventure<T, E, F, B>> {
        self.adventures@
    }

    /// Creates a new saga from a vector of adventures.
    pub fn new(adventures: Vec<Adventure<T, E, F, B>>) -> (saga: Self)
        ensures
            saga.adventures() == adventures@,
    {
        Saga { adventures }
    }

    /// Tells the saga: runs the forward operations in order from `acc`; on
    /// the first failure, compensates the failing adventure and every prior
    /// one, in reverse order, and returns the failure's error unchanged
    /// together with the compensated accumulator.
    pub fn tell(&self, acc: T) -> (r: Result<T, Failure<T, E>>)
        requires
            forward_callable_from(self.adventures(), 0),
            backward_callable_below(self.adventures(), self.adventures().len() as int),
        ensures
            can_tell(self.adventures(), 0, acc, r),
    {
        tell_(&self.adventures, 0, acc)
    }
}

/// Forward execution from index `i`: applies each remaining adventure's
/// forward operation in order, switching to [`revert`] at the first failure.
fn tell_<T, E, F, B>(saga: &Vec<Adventure<T, E, F, B>>, i: usize, acc: T) -> (r: Result<
    T,
    Failure<T, E>,
>) where
    F: Fn(T) -> Result<T, Failure<T, E>>,
    B: Fn(T) -> T,

    requires
        i <= saga@.len(),
        forward_callable_from(saga@, i as int),
        backward_callable_below(saga@, saga@.len() as int),
    ensures
        can_tell(saga@, i as int, acc, r),
    decreases saga@.len() - i,
{
    let ghost s = saga@;
    let ghost a0 = acc;
    if i >= saga.len() {
        Ok(acc)
    } else {
        match saga[i].forward(acc) {
            Ok(acc1) => {
                let ghost a1 = acc1;
                let r = tell_(saga, i + 1, acc1);
                proof {
                    assert(call_ensures(s[i as int].forward_op(), (a0,), Ok::<T, Failure<T, E>>(a1)));
                    assert(can_tell(s, i + 1, a1, r));
                }
                r
            },
            Err(failure) => {
                let ghost fl = failure;
                let Failure { error, acc: acc1 } = failure;
                let out = revert(saga, error, i, acc1);
                proof {
                    assert(call_ensures(s[i as int].forward_op(), (a0,), Err::<T, Failure<T, E>>(fl)));
                    assert(out.error == fl.error);
                    assert(can_revert(s, i as int, fl.acc, out.acc));
                }
                Err(out)
            },
        }
    }
}

/// Backward compensation: applies the backward operation of each adventure
/// from index `i` down to index 0, in that order, and reattaches the
/// untouched `error` to the final accumulator.
fn revert<T, E, F, B>(saga: &Vec<Adventure<T, E, F, B>>, error: E, i: usize, acc: T) -> (f: Failure<
    T,
    E,
>) where
    F: Fn(T) -> Result<T, Failure<T, E>>,
    B: Fn(T) -> T,

    requires
        i < saga@.len(),
        backward_callable_below(saga@, i + 1),
    ensures
        f.error == error,
        can_revert(saga@, i as int, acc, f.acc),
    decreases i,
{
    let ghost s = saga@;
    let ghost a0 = acc;
    let acc1 = saga[i].backward(acc);
    let ghost a1 = acc1;
    if i == 0 {
        Failure { error, acc: acc1 }
    } else {
        let out = revert(saga, error, i - 1, acc1);
        proof {
            assert(call_ensures(s[i as int].backward_op(), (a0,), a1));
            assert(can_revert(s, i as int - 1, a1, out.acc));
        }
        out
    }
}

} // verus!
