//! Polling two or three futures at once, the leftmost first.
//!
//! The futures are polled in order until one is ready. Its output comes back
//! with all of the futures, so the others can be polled again later. How a
//! future is polled is the caller's: a function that takes the future and gives
//! it back, with its output if it was ready.

use vstd::prelude::*;

verus! {

/// Which of two futures was ready, its output, and both futures.
pub struct Select2Out<A, B, X, Y> {
    /// The output of `a`, if it was ready.
    pub first: Option<X>,
    /// The output of `b`, if it was ready.
    pub second: Option<Y>,
    pub a: A,
    pub b: B,
}

/// Two futures to poll.
pub struct Select2<A, B> {
    a: A,
    b: B,
}

/// Polls `a` and `b` until one of them is ready; `a` comes first.
pub fn select2<A, B>(a: A, b: B) -> (s: Select2<A, B>)
    ensures
        s.futures() == (a, b),
{
    Select2 { a, b }
}

impl<A, B> Select2<A, B> {
    pub closed spec fn futures(&self) -> (A, B) {
        (self.a, self.b)
    }

    /// Polls the futures. The second is polled only when the first is pending.
    /// When both are, they come back to be polled again.
    pub fn poll<X, Y, P: FnOnce(A) -> (A, Option<X>), Q: FnOnce(B) -> (B, Option<Y>)>(
        self,
        poll_a: P,
        poll_b: Q,
    ) -> (out: Result<Select2Out<A, B, X, Y>, Self>)
        requires
            poll_a.requires((self.futures().0,)),
            poll_b.requires((self.futures().1,)),
        ensures
            match out {
                Ok(o) => {
                    &&& poll_a.ensures((self.futures().0,), (o.a, o.first))
                    &&& if o.first is Some {
                        o.second is None && o.b == self.futures().1
                    } else {
                        o.second is Some && poll_b.ensures((self.futures().1,), (o.b, o.second))
                    }
                },
                Err(s) => {
                    &&& poll_a.ensures((self.futures().0,), (s.futures().0, None))
                    &&& poll_b.ensures((self.futures().1,), (s.futures().1, None))
                },
            },
    {
        let (a, first) = poll_a(self.a);
        if first.is_some() {
            return Ok(Select2Out { first, second: None, a, b: self.b });
        }
        let (b, second) = poll_b(self.b);
        if second.is_some() {
            return Ok(Select2Out { first: None, second, a, b });
        }
        Err(Select2 { a, b })
    }
}

/// Which of three futures was ready, its output, and all of them.
pub struct Select3Out<A, B, C, X, Y, Z> {
    /// The output of `a`, if it was ready.
    pub first: Option<X>,
    /// The output of `b`, if it was ready.
    pub second: Option<Y>,
    /// The output of `c`, if it was ready.
    pub third: Option<Z>,
    pub a: A,
    pub b: B,
    pub c: C,
}

/// Three futures to poll.
pub struct Select3<A, B, C> {
    a: A,
    b: B,
    c: C,
}

/// Polls `a`, `b` and `c` until one of them is ready; earlier ones come first.
pub fn select3<A, B, C>(a: A, b: B, c: C) -> (s: Select3<A, B, C>)
    ensures
        s.futures() == (a, b, c),
{
    Select3 { a, b, c }
}

impl<A, B, C> Select3<A, B, C> {
    pub closed spec fn futures(&self) -> (A, B, C) {
        (self.a, self.b, self.c)
    }

    /// Polls the futures. Each is polled only when those before it are
    /// pending. When all are, they come back to be polled again.
    pub fn poll<
        X,
        Y,
        Z,
        P: FnOnce(A) -> (A, Option<X>),
        Q: FnOnce(B) -> (B, Option<Y>),
        S: FnOnce(C) -> (C, Option<Z>),
    >(self, poll_a: P, poll_b: Q, poll_c: S) -> (out: Result<Select3Out<A, B, C, X, Y, Z>, Self>)
        requires
            poll_a.requires((self.futures().0,)),
            poll_b.requires((self.futures().1,)),
            poll_c.requires((self.futures().2,)),
        ensures
            match out {
                Ok(o) => {
                    &&& poll_a.ensures((self.futures().0,), (o.a, o.first))
                    &&& if o.first is Some {
                        &&& o.second is None
                        &&& o.third is None
                        &&& o.b == self.futures().1
                        &&& o.c == self.futures().2
                    } else {
                        &&& poll_b.ensures((self.futures().1,), (o.b, o.second))
                        &&& if o.second is Some {
                            o.third is None && o.c == self.futures().2
                        } else {
                            o.third is Some && poll_c.ensures((self.futures().2,), (o.c, o.third))
                        }
                    }
                },
                Err(s) => {
                    &&& poll_a.ensures((self.futures().0,), (s.futures().0, None))
                    &&& poll_b.ensures((self.futures().1,), (s.futures().1, None))
                    &&& poll_c.ensures((self.futures().2,), (s.futures().2, None))
                },
            },
    {
        let (a, first) = poll_a(self.a);
        if first.is_some() {
            return Ok(
                Select3Out { first, second: None, third: None, a, b: self.b, c: self.c },
            );
        }
        let (b, second) = poll_b(self.b);
        if second.is_some() {
            return Ok(Select3Out { first: None, second, third: None, a, b, c: self.c });
        }
        let (c, third) = poll_c(self.c);
        if third.is_some() {
            return Ok(Select3Out { first: None, second: None, third, a, b, c });
        }
        Err(Select3 { a, b, c })
    }
}

} // verus!
