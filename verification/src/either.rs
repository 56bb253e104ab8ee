use vstd::prelude::*;

verus! {

/// A value that is one of two alternatives.
#[derive(Clone, Copy, Debug, PartialEq, Eq, Hash, PartialOrd, Ord)]
pub enum Either<L, R> {
    Left(L),
    Right(R),
}

/// Wraps any value as one side of an `Either`.
pub trait EitherExt: Sized {
    fn either_left<T>(self) -> (r: Either<Self, T>)
        ensures
            r == Either::<Self, T>::Left(self),
    {
        Either::Left(self)
    }

    fn either_right<T>(self) -> (r: Either<T, Self>)
        ensures
            r == Either::<T, Self>::Right(self),
    {
        Either::Right(self)
    }
}

impl<T: Sized> EitherExt for T {

}

impl<L, R> Either<L, R> {
    pub fn as_ref(&self) -> (r: Either<&L, &R>)
        ensures
            match (*self, r) {
                (Either::Left(a), Either::Left(b)) => a == *b,
                (Either::Right(a), Either::Right(b)) => a == *b,
                _ => false,
            },
    {
        match self {
            Either::Left(l) => Either::Left(l),
            Either::Right(r) => Either::Right(r),
        }
    }

    pub fn map_left<U, F: FnOnce(L) -> U>(self, f: F) -> (r: Either<U, R>)
        requires
            self matches Either::Left(l) ==> f.requires((l,)),
        ensures
            mapped_left(self, f, r),
    {
        match self {
            Either::Left(l) => Either::Left(f(l)),
            Either::Right(r) => Either::Right(r),
        }
    }

    /// The left value; an `Either` that holds its right side cannot be
    /// unwrapped this way.
    pub fn unwrap_left(self) -> (r: L)
        requires
            self is Left,
        ensures
            self == Either::<L, R>::Left(r),
    {
        match self {
            Either::Left(l) => l,
            Either::Right(_) => {
                proof {
                    assert(false);
                }
                unreached()
            },
        }
    }

    /// The right value; an `Either` that holds its left side cannot be
    /// unwrapped this way.
    pub fn unwrap_right(self) -> (r: R)
        requires
            self is Right,
        ensures
            self == Either::<L, R>::Right(r),
    {
        match self {
            Either::Left(_) => {
                proof {
                    assert(false);
                }
                unreached()
            },
            Either::Right(r) => r,
        }
    }

    pub fn map_right<U, F: FnOnce(R) -> U>(self, f: F) -> (r: Either<L, U>)
        requires
            self matches Either::Right(x) ==> f.requires((x,)),
        ensures
            mapped_right(self, f, r),
    {
        match self {
            Either::Right(r) => Either::Right(f(r)),
            Either::Left(l) => Either::Left(l),
        }
    }
}

impl<T> Either<T, T> {
    pub fn map<U, F: FnOnce(T) -> U>(self, f: F) -> (r: Either<U, U>)
        requires
            f.requires((self.inner_value(),)),
        ensures
            match (self, r) {
                (Either::Left(a), Either::Left(u)) => f.ensures((a,), u),
                (Either::Right(a), Either::Right(u)) => f.ensures((a,), u),
                _ => false,
            },
    {
        match self {
            Either::Left(n) => Either::Left(f(n)),
            Either::Right(n) => Either::Right(f(n)),
        }
    }

    /// The value held, whichever side holds it.
    pub open spec fn inner_value(self) -> T {
        match self {
            Either::Left(n) => n,
            Either::Right(n) => n,
        }
    }

    pub fn into_inner(self) -> (r: T)
        ensures
            r == self.inner_value(),
    {
        match self {
            Either::Left(n) => n,
            Either::Right(n) => n,
        }
    }
}

impl<L, R> From<Result<L, R>> for Either<L, R> {
    fn from(value: Result<L, R>) -> (r: Self)
        ensures
            r == Self::from_spec(value),
    {
        match value {
            Ok(r) => Either::Left(r),
            Err(r) => Either::Right(r),
        }
    }
}

impl<L, R> Either<L, R> {
    /// `Ok` becomes the left side and `Err` the right side.
    pub open spec fn from_spec(value: Result<L, R>) -> Self {
        match value {
            Ok(r) => Either::Left(r),
            Err(r) => Either::Right(r),
        }
    }
}

impl<L, R> vstd::std_specs::convert::FromSpecImpl<Result<L, R>> for Either<L, R> {
    open spec fn obeys_from_spec() -> bool {
        true
    }

    open spec fn from_spec(v: Result<L, R>) -> Self {
        Self::from_spec(v)
    }
}

impl<LS, LSK: Clone, RS, RSK: Clone> Either<(LS, LSK), (RS, RSK)> {
    /// A clone of the state key of whichever side is held, on the same side.
    pub fn map_to_state_key(&self) -> (r: Either<LSK, RSK>)
        ensures
            (r is Left) == (*self is Left),
            match (*self, r) {
                (Either::Left(s), Either::Left(k)) => cloned::<LSK>(s.1, k),
                (Either::Right(s), Either::Right(k)) => cloned::<RSK>(s.1, k),
                _ => false,
            },
    {
        match self {
            Either::Left((_, state_key)) => Either::Left(state_key.clone()),
            Either::Right((_, state_key)) => Either::Right(state_key.clone()),
        }
    }
}

/// Whether `r` is what `map_left` can give for `e` and `f`: the left value
/// mapped by `f`, or the same right value.
pub open spec fn mapped_left<L, R, U, F: FnOnce(L) -> U>(e: Either<L, R>, f: F, r: Either<U, R>) -> bool {
    match (e, r) {
        (Either::Left(l), Either::Left(u)) => f.ensures((l,), u),
        (Either::Right(a), Either::Right(b)) => a == b,
        _ => false,
    }
}

/// Whether `r` is what `map_right` can give for `e` and `f`: the right value
/// mapped by `f`, or the same left value.
pub open spec fn mapped_right<L, R, U, F: FnOnce(R) -> U>(e: Either<L, R>, f: F, r: Either<L, U>) -> bool {
    match (e, r) {
        (Either::Right(x), Either::Right(u)) => f.ensures((x,), u),
        (Either::Left(a), Either::Left(b)) => a == b,
        _ => false,
    }
}

/// Whether `f` gives one result for each argument.
pub open spec fn single_valued<A, B, F: FnOnce(A) -> B>(f: F) -> bool {
    forall|x: A, u: B, v: B| f.ensures((x,), u) && f.ensures((x,), v) ==> u == v
}

/// Mapping the right side and then the left side gives what mapping the left
/// side and then the right side gives, when each function gives one result
/// for each argument.
pub proof fn map_right_then_left_commute<L, R, U, V, F: FnOnce(R) -> U, G: FnOnce(L) -> V>(
    e: Either<L, R>,
    f: F,
    g: G,
    right_first: Either<L, U>,
    both_right_first: Either<V, U>,
    left_first: Either<V, R>,
    both_left_first: Either<V, U>,
)
    requires
        single_valued::<R, U, F>(f),
        single_valued::<L, V, G>(g),
        mapped_right(e, f, right_first),
        mapped_left(right_first, g, both_right_first),
        mapped_left(e, g, left_first),
        mapped_right(left_first, f, both_left_first),
    ensures
        both_right_first == both_left_first,
{
}

} // verus!
