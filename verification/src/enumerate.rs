//! Counting adapters over pull-based sequences of `Result` values.
//!
//! A [`ResultSequence`] hands out `Result<T, E>` elements one at a time until
//! it is exhausted.  The two adapters built here wrap such a sequence and pair
//! one side of each result with a running count:
//!
//! * [`EnumerateOkImpl`] pairs every success with the count of successes seen
//!   so far (optionally also counting failures, per [`EnumOkConfig`]), and
//!   passes failure payloads through unchanged;
//! * [`EnumerateErrImpl`] does the same with the roles of success and failure
//!   swapped, configured by [`EnumErrConfig`].
//!
//! Both adapters are themselves result sequences, so they compose with any
//! other sequence-consuming code.

use vstd::prelude::*;

verus! {

/// Policy for the success-counting adapter: whether a failure also advances
/// the running counter.
#[derive(Debug, Clone, PartialEq, Eq, Structural)]
pub enum EnumOkConfig {
    /// Ignore `Err(_)` when counting.
    IgnoreErr,
    /// Increase the counter on `Err(_)` as well (without attaching it).
    CountErr,
}

/// Policy for the failure-counting adapter: whether a success also advances
/// the running counter.
#[derive(Debug, Clone, PartialEq, Eq, Structural)]
pub enum EnumErrConfig {
    /// Ignore `Ok(_)` when counting.
    IgnoreOk,
    /// Increase the counter on `Ok(_)` as well (without attaching it).
    CountOk,
}

/// How far the success-counting adapter's counter advances on one element:
/// always on a success, and on a failure only under `CountErr`.
pub open spec fn ok_advance<T, E>(x: Result<T, E>, config: EnumOkConfig) -> nat {
    match x {
        Ok(_) => 1,
        Err(_) => if config == EnumOkConfig::CountErr {
            1
        } else {
            0
        },
    }
}

/// How far the failure-counting adapter's counter advances on one element:
/// always on a failure, and on a success only under `CountOk`.
pub open spec fn err_advance<T, E>(x: Result<T, E>, config: EnumErrConfig) -> nat {
    match x {
        Ok(_) => if config == EnumErrConfig::CountOk {
            1
        } else {
            0
        },
        Err(_) => 1,
    }
}

/// Total advance of the success-counting adapter's counter over all of `s`.
pub open spec fn ok_advances<T, E>(s: Seq<Result<T, E>>, config: EnumOkConfig) -> nat
    decreases s.len(),
{
    if s.len() == 0 {
        0
    } else {
        ok_advance(s[0], config) + ok_advances(s.drop_first(), config)
    }
}

/// Total advance of the failure-counting adapter's counter over all of `s`.
pub open spec fn err_advances<T, E>(s: Seq<Result<T, E>>, config: EnumErrConfig) -> nat
    decreases s.len(),
{
    if s.len() == 0 {
        0
    } else {
        err_advance(s[0], config) + err_advances(s.drop_first(), config)
    }
}

/// The whole output of the success-counting adapter on input `s`, starting
/// from counter value `count`: each success is paired with the counter after
/// its increment, each failure payload is passed through unchanged.
pub open spec fn enum_ok_spec<T, E>(
    s: Seq<Result<T, E>>,
    count: usize,
    config: EnumOkConfig,
) -> Seq<Result<(usize, T), E>>
    decreases s.len(),
{
    if s.len() == 0 {
        Seq::empty()
    } else {
        let c1 = ((count + ok_advance(s[0], config)) as usize);
        let head = (match s[0] {
            Ok(t) => Ok::<(usize, T), E>((c1, t)),
            Err(e) => Err::<(usize, T), E>(e),
        });
        seq![head] + enum_ok_spec(s.drop_first(), c1, config)
    }
}

/// The whole output of the failure-counting adapter on input `s`, starting
/// from counter value `count`: each failure is paired with the counter after
/// its increment, each success payload is passed through unchanged.
pub open spec fn enum_err_spec<T, E>(
    s: Seq<Result<T, E>>,
    count: usize,
    config: EnumErrConfig,
) -> Seq<Result<T, (usize, E)>>
    decreases s.len(),
{
    if s.len() == 0 {
        Seq::empty()
    } else {
        let c1 = ((count + err_advance(s[0], config)) as usize);
        let head = (match s[0] {
            Ok(t) => Ok::<T, (usize, E)>(t),
            Err(e) => Err::<T, (usize, E)>((c1, e)),
        });
        seq![head] + enum_err_spec(s.drop_first(), c1, config)
    }
}

/// Unfolds `enum_ok_spec` one step on a non-empty input: the head of the
/// output comes from the head of the input, and the tail of the output is the
/// adapter's output on the tail of the input with the advanced counter.
pub proof fn lemma_enum_ok_spec_step<T, E>(s: Seq<Result<T, E>>, count: usize, config: EnumOkConfig)
    requires
        s.len() > 0,
    ensures
        enum_ok_spec(s, count, config).len() == s.len(),
        enum_ok_spec(s, count, config)[0] == (match s[0] {
            Ok(t) => Ok::<(usize, T), E>(
                (((count + ok_advance(s[0], config)) as usize), t),
            ),
            Err(e) => Err::<(usize, T), E>(e),
        }),
        enum_ok_spec(s, count, config).drop_first() == enum_ok_spec(
            s.drop_first(),
            ((count + ok_advance(s[0], config)) as usize),
            config,
        ),
    decreases s.len(),
{
    let c1 = ((count + ok_advance(s[0], config)) as usize);
    assert(enum_ok_spec(s, count, config).drop_first() =~= enum_ok_spec(
        s.drop_first(),
        c1,
        config,
    ));
    if s.len() > 1 {
        lemma_enum_ok_spec_step(s.drop_first(), c1, config);
    }
}

/// Unfolds `enum_err_spec` one step on a non-empty input, as
/// `lemma_enum_ok_spec_step` does for the success-counting adapter.
pub proof fn lemma_enum_err_spec_step<T, E>(
    s: Seq<Result<T, E>>,
    count: usize,
    config: EnumErrConfig,
)
    requires
        s.len() > 0,
    ensures
        enum_err_spec(s, count, config).len() == s.len(),
        enum_err_spec(s, count, config)[0] == (match s[0] {
            Ok(t) => Ok::<T, (usize, E)>(t),
            Err(e) => Err::<T, (usize, E)>(
                (((count + err_advance(s[0], config)) as usize), e),
            ),
        }),
        enum_err_spec(s, count, config).drop_first() == enum_err_spec(
            s.drop_first(),
            ((count + err_advance(s[0], config)) as usize),
            config,
        ),
    decreases s.len(),
{
    let c1 = ((count + err_advance(s[0], config)) as usize);
    assert(enum_err_spec(s, count, config).drop_first() =~= enum_err_spec(
        s.drop_first(),
        c1,
        config,
    ));
    if s.len() > 1 {
        lemma_enum_err_spec_step(s.drop_first(), c1, config);
    }
}

/// A pull-based lazy sequence of `Result` values: the abstraction that the
/// adapters wrap, and that they themselves provide in turn.
///
/// `remaining` is the sequence of elements still to be produced, in order.
/// Exhaustion is permanent: once `remaining` is empty, `next` returns `None`
/// and leaves `remaining` empty, so every later pull signals exhaustion too.
pub trait ResultSequence<T, E>: Sized {
    /// Well-formedness that `next` requires and preserves.
    spec fn inv(&self) -> bool;

    /// The elements this sequence will still produce, in order.
    spec fn remaining(&self) -> Seq<Result<T, E>>;

    /// Pulls the next element, or signals exhaustion with `None`.
    fn next(&mut self) -> (r: Option<Result<T, E>>)
        requires
            old(self).inv(),
        ensures
            final(self).inv(),
            match r {
                Some(x) => old(self).remaining().len() > 0 && x == old(self).remaining()[0]
                    && final(self).remaining() == old(self).remaining().drop_first(),
                None => old(self).remaining().len() == 0 && final(self).remaining() == old(
                    self,
                ).remaining(),
            },
    ;
}

/// A result sequence read out of a vector, front to back.
pub struct VecResultSequence<T, E> {
    items: Vec<Result<T, E>>,
}

impl<T, E> VecResultSequence<T, E> {
    /// Wraps a vector of results as a pull-based sequence over its elements.
    pub fn new(items: Vec<Result<T, E>>) -> (r: Self)
        ensures
            r.inv(),
            r.remaining() == items@,
    {
        VecResultSequence { items }
    }
}

impl<T, E> ResultSequence<T, E> for VecResultSequence<T, E> {
    closed spec fn inv(&self) -> bool {
        true
    }

    closed spec fn remaining(&self) -> Seq<Result<T, E>> {
        self.items@
    }

    fn next(&mut self) -> (r: Option<Result<T, E>>) {
        if self.items.len() > 0 {
            let x = self.items.remove(0);
            proof {
                assert(self.items@ =~= old(self).items@.drop_first());
            }
            Some(x)
        } else {
            None
        }
    }
}

/// The success-counting adapter: wraps a result sequence and pairs each
/// success payload with the running counter, advanced per [`EnumOkConfig`].
pub struct EnumerateOkImpl<I, T, E> where I: ResultSequence<T, E> {
    inner: I,
    count: usize,
    config: EnumOkConfig,
    marker: core::marker::PhantomData<(T, E)>,
}

impl<I, T, E> ResultSequence<(usize, T), E> for EnumerateOkImpl<I, T, E> where
    I: ResultSequence<T, E>,
 {
    closed spec fn inv(&self) -> bool {
        self.inner.inv() && self.count + self.inner.remaining().len() <= usize::MAX
    }

    closed spec fn remaining(&self) -> Seq<Result<(usize, T), E>> {
        enum_ok_spec(self.inner.remaining(), self.count, self.config)
    }

    fn next(&mut self) -> (r: Option<Result<(usize, T), E>>) {
        let ghost s = self.inner.remaining();
        let ghost c0 = self.count;
        match self.inner.next() {
            None => None,
            Some(item) => {
                proof {
                    lemma_enum_ok_spec_step(s, c0, self.config);
                }
                match item {
                    Err(e) => {
                        if self.config == EnumOkConfig::CountErr {
                            self.count = self.count + 1;
                        }
                        Some(Err(e))
                    },
                    Ok(t) => {
                        self.count = self.count + 1;
                        Some(Ok((self.count, t)))
                    },
                }
            },
        }
    }
}

/// The failure-counting adapter: wraps a result sequence and pairs each
/// failure payload with the running counter, advanced per [`EnumErrConfig`].
pub struct EnumerateErrImpl<I, T, E> where I: ResultSequence<T, E> {
    inner: I,
    count: usize,
    config: EnumErrConfig,
    marker: core::marker::PhantomData<(T, E)>,
}

impl<I, T, E> ResultSequence<T, (usize, E)> for EnumerateErrImpl<I, T, E> where
    I: ResultSequence<T, E>,
 {
    closed spec fn inv(&self) -> bool {
        self.inner.inv() && self.count + self.inner.remaining().len() <= usize::MAX
    }

    closed spec fn remaining(&self) -> Seq<Result<T, (usize, E)>> {
        enum_err_spec(self.inner.remaining(), self.count, self.config)
    }

    fn next(&mut self) -> (r: Option<Result<T, (usize, E)>>) {
        let ghost s = self.inner.remaining();
        let ghost c0 = self.count;
        match self.inner.next() {
            None => None,
            Some(item) => {
                proof {
                    lemma_enum_err_spec_step(s, c0, self.config);
                }
                match item {
                    Ok(t) => {
                        if self.config == EnumErrConfig::CountOk {
                            self.count = self.count + 1;
                        }
                        Some(Ok(t))
                    },
                    Err(e) => {
                        self.count = self.count + 1;
                        Some(Err((self.count, e)))
                    },
                }
            },
        }
    }
}

/// Extension operations on any result sequence: wrap it in one of the two
/// counting adapters.  Both adapters start their counter at zero.
///
/// The bound on the length of `remaining` only keeps the running counter
/// within `usize`; a sequence read from memory satisfies it trivially.
pub trait EnumerateResult<T, E>: ResultSequence<T, E> {
    /// Wraps `self` in the success-counting adapter driven by `config`.
    fn enumerate_ok(self, config: EnumOkConfig) -> (r: EnumerateOkImpl<Self, T, E>)
        requires
            self.inv(),
            self.remaining().len() <= usize::MAX,
        ensures
            r.inv(),
            r.remaining() == enum_ok_spec(self.remaining(), 0, config),
    ;

    /// Wraps `self` in the failure-counting adapter driven by `config`.
    fn enumerate_err(self, config: EnumErrConfig) -> (r: EnumerateErrImpl<Self, T, E>)
        requires
            self.inv(),
            self.remaining().len() <= usize::MAX,
        ensures
            r.inv(),
            r.remaining() == enum_err_spec(self.remaining(), 0, config),
    ;
}

impl<I, T, E> EnumerateResult<T, E> for I where I: ResultSequence<T, E> {
    fn enumerate_ok(self, config: EnumOkConfig) -> (r: EnumerateOkImpl<Self, T, E>) {
        EnumerateOkImpl { inner: self, count: 0, config, marker: core::marker::PhantomData }
    }

    fn enumerate_err(self, config: EnumErrConfig) -> (r: EnumerateErrImpl<Self, T, E>) {
        EnumerateErrImpl { inner: self, count: 0, config, marker: core::marker::PhantomData }
    }
}

} // verus!
