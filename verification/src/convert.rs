//! Converting the elements of a vector, one by one.

use vstd::prelude::*;
use vstd::std_specs::convert::{FromSpec, TryFromSpec};

verus! {

/// A vector whose elements can each be turned into a `D`.
pub trait VecInto<D> {
    fn vec_into(self) -> Vec<D>;
}

impl<E, D> VecInto<D> for Vec<E> where D: From<E> {
    /// Converts every element, in order.
    fn vec_into(self) -> (r: Vec<D>)
        ensures
            is_converted::<E, D>(self@, r@),
    {
        convert_all(self)
    }
}

/// A vector whose elements can each be turned into a `D`, or fail to.
pub trait TryVecInto<D> {
    type Error;

    fn try_vec_into(self) -> Result<Vec<D>, Self::Error>;
}

impl<E, D, E2> TryVecInto<D> for Vec<E> where D: TryFrom<E, Error = E2> {
    type Error = E2;

    /// Converts every element, in order, up to the first that fails: its
    /// error is returned.
    fn try_vec_into(self) -> (r: Result<Vec<D>, E2>)
        ensures
            r matches Ok(v) ==> is_try_converted::<E, D, E2>(self@, v@),
            r matches Err(e) ==> exists|k: int| #[trigger] first_failure::<E, D, E2>(self@, k, e),
    {
        try_convert_all(self)
    }
}

/// A list holds the elements of another, each converted, in their order. Of
/// the elements themselves this says something where the conversion has a
/// model.
pub open spec fn is_converted<E, D: From<E>>(src: Seq<E>, out: Seq<D>) -> bool {
    &&& out.len() == src.len()
    &&& forall|i: int| 0 <= i < out.len() ==> call_ensures(D::from, (src[i],), #[trigger] out[i])
    &&& D::obeys_from_spec() ==> forall|i: int|
        0 <= i < out.len() ==> #[trigger] out[i] == D::from_spec(src[i])
}

/// A list holds the elements of another, each converted without failure,
/// in their order.
pub open spec fn is_try_converted<E, D: TryFrom<E, Error = E2>, E2>(
    src: Seq<E>,
    out: Seq<D>,
) -> bool {
    &&& out.len() == src.len()
    &&& forall|i: int|
        0 <= i < out.len() ==> call_ensures(
            D::try_from,
            (src[i],),
            Ok::<D, E2>(#[trigger] out[i]),
        )
    &&& D::obeys_try_from_spec() ==> forall|i: int|
        0 <= i < out.len() ==> D::try_from_spec(src[i]) == Ok::<D, E2>(#[trigger] out[i])
}

/// The element at a position is the one whose conversion failed, with this
/// error; where the conversion has a model, it fails for no element before.
pub open spec fn first_failure<E, D: TryFrom<E, Error = E2>, E2>(src: Seq<E>, k: int, e: E2) -> bool {
    &&& 0 <= k < src.len()
    &&& call_ensures(D::try_from, (src[k],), Err::<D, E2>(e))
    &&& D::obeys_try_from_spec() ==> D::try_from_spec(src[k]) == Err::<D, E2>(e)
    &&& D::obeys_try_from_spec() ==> forall|i: int|
        0 <= i < k ==> (#[trigger] D::try_from_spec(src[i])) is Ok
}

/// The elements of a vector, last first.
pub fn reversed<T>(list: Vec<T>) -> (r: Vec<T>)
    ensures
        r@.len() == list@.len(),
        forall|i: int| 0 <= i < r@.len() ==> #[trigger] r@[i] == list@[list@.len() - 1 - i],
{
    let ghost src = list@;
    let mut rest = list;
    let mut out: Vec<T> = Vec::new();
    loop
        invariant
            rest@.len() + out@.len() == src.len(),
            forall|i: int| 0 <= i < rest@.len() ==> #[trigger] rest@[i] == src[i],
            forall|i: int| 0 <= i < out@.len() ==> #[trigger] out@[i] == src[src.len() - 1 - i],
        ensures
            out@.len() == src.len(),
            forall|i: int| 0 <= i < out@.len() ==> #[trigger] out@[i] == src[src.len() - 1 - i],
        decreases rest@.len(),
    {
        match rest.pop() {
            Some(e) => {
                out.push(e);
            },
            None => {
                break ;
            },
        }
    }
    out
}

/// Converts every element, in order.
pub fn convert_all<E, D>(list: Vec<E>) -> (r: Vec<D>) where D: From<E>
    ensures
        is_converted::<E, D>(list@, r@),
{
    let ghost src = list@;
    let mut rest = reversed(list);
    let mut out: Vec<D> = Vec::new();
    loop
        invariant
            rest@.len() + out@.len() == src.len(),
            forall|i: int| 0 <= i < rest@.len() ==> #[trigger] rest@[i] == src[src.len() - 1 - i],
            forall|i: int|
                0 <= i < out@.len() ==> call_ensures(D::from, (src[i],), #[trigger] out@[i]),
            D::obeys_from_spec() ==> forall|i: int|
                0 <= i < out@.len() ==> #[trigger] out@[i] == D::from_spec(src[i]),
        ensures
            is_converted::<E, D>(src, out@),
        decreases rest@.len(),
    {
        let ghost done = out@.len() as int;
        match rest.pop() {
            Some(e) => {
                assert(e == src[done]);
                let d = D::from(e);
                assert(call_ensures(D::from, (e,), d));
                out.push(d);
            },
            None => {
                break ;
            },
        }
    }
    out
}

/// Converts every element, in order, up to the first that fails: its error
/// is returned.
pub fn try_convert_all<E, D, E2>(list: Vec<E>) -> (r: Result<Vec<D>, E2>) where
    D: TryFrom<E, Error = E2>,

    ensures
        r matches Ok(v) ==> is_try_converted::<E, D, E2>(list@, v@),
        r matches Err(e) ==> exists|k: int| #[trigger] first_failure::<E, D, E2>(list@, k, e),
{
    let ghost src = list@;
    let mut rest = reversed(list);
    let mut out: Vec<D> = Vec::new();
    loop
        invariant
            src == list@,
            rest@.len() + out@.len() == src.len(),
            forall|i: int| 0 <= i < rest@.len() ==> #[trigger] rest@[i] == src[src.len() - 1 - i],
            forall|i: int|
                0 <= i < out@.len() ==> call_ensures(
                    D::try_from,
                    (src[i],),
                    Ok::<D, E2>(#[trigger] out@[i]),
                ),
            D::obeys_try_from_spec() ==> forall|i: int|
                0 <= i < out@.len() ==> D::try_from_spec(src[i]) == Ok::<D, E2>(#[trigger] out@[i]),
        ensures
            is_try_converted::<E, D, E2>(src, out@),
        decreases rest@.len(),
    {
        let ghost done = out@.len() as int;
        match rest.pop() {
            Some(e) => {
                assert(e == src[done]);
                let converted = D::try_from(e);
                assert(call_ensures(D::try_from, (e,), converted));
                match converted {
                    Ok(d) => {
                        out.push(d);
                    },
                    Err(err) => {
                        proof {
                            assert(call_ensures(D::try_from, (src[done],), Err::<D, E2>(err)));
                            if D::obeys_try_from_spec() {
                                assert(D::try_from_spec(src[done]) == Err::<D, E2>(err));
                                assert forall|i: int| 0 <= i < done implies (
                                #[trigger] D::try_from_spec(src[i])) is Ok by {
                                    assert(D::try_from_spec(src[i]) == Ok::<D, E2>(out@[i]));
                                }
                            }
                            assert(first_failure::<E, D, E2>(src, done, err));
                        }
                        let r: Result<Vec<D>, E2> = Err(err);
                        assert(r matches Err(e) ==> first_failure::<E, D, E2>(src, done, e));
                        return r;
                    },
                }
            },
            None => {
                break ;
            },
        }
    }
    Ok(out)
}

} // verus!
