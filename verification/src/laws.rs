//! The adapters' general guarantees, each proved once and for all over the
//! output model [`enum_ok_spec`] / [`enum_err_spec`] that the adapters'
//! contracts are stated with: output length, preservation of the
//! success/failure tag, the running counter's values, and independence of the
//! pass-through side from the counting policy.

use vstd::prelude::*;

use crate::enumerate::{
    enum_err_spec,
    enum_ok_spec,
    err_advance,
    err_advances,
    ok_advance,
    ok_advances,
    EnumErrConfig,
    EnumOkConfig,
};

verus! {

/// Cardinality preservation: on an input of length `N`, both adapters produce
/// exactly `N` output elements before signaling exhaustion.
pub proof fn lemma_enumerate_ok_cardinality<T, E>(
    s: Seq<Result<T, E>>,
    count: usize,
    config: EnumOkConfig,
)
    ensures
        enum_ok_spec(s, count, config).len() == s.len(),
    decreases s.len(),
{
    if s.len() > 0 {
        lemma_enumerate_ok_cardinality(
            s.drop_first(),
            ((count + ok_advance(s[0], config)) as usize),
            config,
        );
    }
}

/// Cardinality preservation for the failure-counting adapter.
pub proof fn lemma_enumerate_err_cardinality<T, E>(
    s: Seq<Result<T, E>>,
    count: usize,
    config: EnumErrConfig,
)
    ensures
        enum_err_spec(s, count, config).len() == s.len(),
    decreases s.len(),
{
    if s.len() > 0 {
        lemma_enumerate_err_cardinality(
            s.drop_first(),
            ((count + err_advance(s[0], config)) as usize),
            config,
        );
    }
}

/// An empty input yields an empty output from both adapters, under any policy
/// and from any starting counter.
pub proof fn lemma_enumerate_empty<T, E>(
    count: usize,
    ok_config: EnumOkConfig,
    err_config: EnumErrConfig,
)
    ensures
        enum_ok_spec(Seq::<Result<T, E>>::empty(), count, ok_config) == Seq::<
            Result<(usize, T), E>,
        >::empty(),
        enum_err_spec(Seq::<Result<T, E>>::empty(), count, err_config) == Seq::<
            Result<T, (usize, E)>,
        >::empty(),
{
}

/// Variant preservation: each output element carries the same success/failure
/// tag as the input element at the same position; the success-counting
/// adapter never turns a success into a failure or the reverse.
pub proof fn lemma_enumerate_ok_variant_preservation<T, E>(
    s: Seq<Result<T, E>>,
    count: usize,
    config: EnumOkConfig,
)
    ensures
        enum_ok_spec(s, count, config).len() == s.len(),
        forall|i: int|
            0 <= i < s.len() ==> ((#[trigger] enum_ok_spec(s, count, config)[i]) is Ok <==> s[i]
                is Ok),
    decreases s.len(),
{
    if s.len() > 0 {
        let c1 = ((count + ok_advance(s[0], config)) as usize);
        lemma_enumerate_ok_variant_preservation(s.drop_first(), c1, config);
        assert forall|i: int|
            0 <= i < s.len() implies ((#[trigger] enum_ok_spec(s, count, config)[i]) is Ok <==> s[i]
            is Ok) by {
            if i > 0 {
                assert(enum_ok_spec(s, count, config)[i] == enum_ok_spec(
                    s.drop_first(),
                    c1,
                    config,
                )[i - 1]);
                assert(s.drop_first()[i - 1] == s[i]);
            }
        }
    }
}

/// Variant preservation for the failure-counting adapter.
pub proof fn lemma_enumerate_err_variant_preservation<T, E>(
    s: Seq<Result<T, E>>,
    count: usize,
    config: EnumErrConfig,
)
    ensures
        enum_err_spec(s, count, config).len() == s.len(),
        forall|i: int|
            0 <= i < s.len() ==> ((#[trigger] enum_err_spec(s, count, config)[i]) is Ok <==> s[i]
                is Ok),
    decreases s.len(),
{
    if s.len() > 0 {
        let c1 = ((count + err_advance(s[0], config)) as usize);
        lemma_enumerate_err_variant_preservation(s.drop_first(), c1, config);
        assert forall|i: int|
            0 <= i < s.len() implies ((#[trigger] enum_err_spec(s, count, config)[i]) is Ok <==> s[i]
            is Ok) by {
            if i > 0 {
                assert(enum_err_spec(s, count, config)[i] == enum_err_spec(
                    s.drop_first(),
                    c1,
                    config,
                )[i - 1]);
                assert(s.drop_first()[i - 1] == s[i]);
            }
        }
    }
}

/// Taking one more element of the input advances the success-counting
/// adapter's total by exactly the advance that element dictates.
proof fn lemma_ok_advances_take_step<T, E>(s: Seq<Result<T, E>>, config: EnumOkConfig, k: int)
    requires
        0 <= k < s.len(),
    ensures
        ok_advances(s.take(k + 1), config) == ok_advances(s.take(k), config) + ok_advance(
            s[k],
            config,
        ),
    decreases k,
{
    if k == 0 {
        assert(s.take(0) =~= Seq::<Result<T, E>>::empty());
        assert(s.take(1).drop_first() =~= Seq::<Result<T, E>>::empty());
        assert(s.take(1)[0] == s[0]);
    } else {
        let tail = s.drop_first();
        lemma_ok_advances_take_step(tail, config, k - 1);
        assert(s.take(k + 1).drop_first() =~= tail.take(k));
        assert(s.take(k).drop_first() =~= tail.take(k - 1));
        assert(s.take(k + 1)[0] == s[0]);
        assert(s.take(k)[0] == s[0]);
        assert(tail[k - 1] == s[k]);
    }
}

/// The counterpart of `lemma_ok_advances_take_step` for the failure-counting
/// adapter.
proof fn lemma_err_advances_take_step<T, E>(s: Seq<Result<T, E>>, config: EnumErrConfig, k: int)
    requires
        0 <= k < s.len(),
    ensures
        err_advances(s.take(k + 1), config) == err_advances(s.take(k), config) + err_advance(
            s[k],
            config,
        ),
    decreases k,
{
    if k == 0 {
        assert(s.take(0) =~= Seq::<Result<T, E>>::empty());
        assert(s.take(1).drop_first() =~= Seq::<Result<T, E>>::empty());
        assert(s.take(1)[0] == s[0]);
    } else {
        let tail = s.drop_first();
        lemma_err_advances_take_step(tail, config, k - 1);
        assert(s.take(k + 1).drop_first() =~= tail.take(k));
        assert(s.take(k).drop_first() =~= tail.take(k - 1));
        assert(s.take(k + 1)[0] == s[0]);
        assert(s.take(k)[0] == s[0]);
        assert(tail[k - 1] == s[k]);
    }
}

/// The success-counting adapter's total advance over a prefix grows with the
/// prefix, and never by more than one per element.
proof fn lemma_ok_advances_take_monotonic<T, E>(
    s: Seq<Result<T, E>>,
    config: EnumOkConfig,
    a: int,
    b: int,
)
    requires
        0 <= a <= b <= s.len(),
    ensures
        ok_advances(s.take(a), config) <= ok_advances(s.take(b), config),
        ok_advances(s.take(b), config) <= ok_advances(s.take(a), config) + (b - a),
    decreases b - a,
{
    if a < b {
        lemma_ok_advances_take_step(s, config, b - 1);
        lemma_ok_advances_take_monotonic(s, config, a, b - 1);
    }
}

/// The counterpart of `lemma_ok_advances_take_monotonic` for the
/// failure-counting adapter.
proof fn lemma_err_advances_take_monotonic<T, E>(
    s: Seq<Result<T, E>>,
    config: EnumErrConfig,
    a: int,
    b: int,
)
    requires
        0 <= a <= b <= s.len(),
    ensures
        err_advances(s.take(a), config) <= err_advances(s.take(b), config),
        err_advances(s.take(b), config) <= err_advances(s.take(a), config) + (b - a),
    decreases b - a,
{
    if a < b {
        lemma_err_advances_take_step(s, config, b - 1);
        lemma_err_advances_take_monotonic(s, config, a, b - 1);
    }
}

/// Counter values, element by element: starting from `count`, the
/// success-counting adapter pairs the success at position `i` with
/// `count + ok_advances(s.take(i + 1), config)` — the running counter after
/// every policy-dictated increment up to and including that element — and
/// passes the failure at position `i` through unchanged.
pub proof fn lemma_enumerate_ok_counters<T, E>(
    s: Seq<Result<T, E>>,
    count: usize,
    config: EnumOkConfig,
)
    requires
        count + s.len() <= usize::MAX,
    ensures
        enum_ok_spec(s, count, config).len() == s.len(),
        forall|i: int|
            0 <= i < s.len() && s[i] is Ok ==> (#[trigger] enum_ok_spec(s, count, config)[i])
                == Ok::<(usize, T), E>(
                (((count + ok_advances(s.take(i + 1), config)) as usize), s[i]->Ok_0),
            ),
        forall|i: int|
            0 <= i < s.len() && s[i] is Err ==> (#[trigger] enum_ok_spec(s, count, config)[i])
                == Err::<(usize, T), E>(s[i]->Err_0),
        forall|i: int| 0 <= i <= s.len() ==> count + ok_advances(#[trigger] s.take(i), config) <= count + i,
    decreases s.len(),
{
    assert forall|i: int| 0 <= i <= s.len() implies count + ok_advances(
        #[trigger] s.take(i),
        config,
    ) <= count + i by {
        assert(s.take(0) =~= Seq::<Result<T, E>>::empty());
        lemma_ok_advances_take_monotonic(s, config, 0, i);
    }
    if s.len() > 0 {
        let c1 = ((count + ok_advance(s[0], config)) as usize);
        let tail = s.drop_first();
        lemma_enumerate_ok_counters(tail, c1, config);
        assert forall|i: int|
            0 <= i < s.len() && s[i] is Ok implies (#[trigger] enum_ok_spec(s, count, config)[i])
            == Ok::<(usize, T), E>(
            (((count + ok_advances(s.take(i + 1), config)) as usize), s[i]->Ok_0),
        ) by {
            if i == 0 {
                assert(s.take(1).drop_first() =~= Seq::<Result<T, E>>::empty());
                assert(s.take(1)[0] == s[0]);
            } else {
                assert(enum_ok_spec(s, count, config)[i] == enum_ok_spec(tail, c1, config)[i - 1]);
                assert(tail[i - 1] == s[i]);
                assert(s.take(i + 1).drop_first() =~= tail.take(i));
                assert(s.take(i + 1)[0] == s[0]);
            }
        }
        assert forall|i: int|
            0 <= i < s.len() && s[i] is Err implies (#[trigger] enum_ok_spec(s, count, config)[i])
            == Err::<(usize, T), E>(s[i]->Err_0) by {
            if i > 0 {
                assert(enum_ok_spec(s, count, config)[i] == enum_ok_spec(tail, c1, config)[i - 1]);
                assert(tail[i - 1] == s[i]);
            }
        }
    }
}

/// Counter values for the failure-counting adapter, element by element, as
/// `lemma_enumerate_ok_counters` gives them for the success-counting one.
pub proof fn lemma_enumerate_err_counters<T, E>(
    s: Seq<Result<T, E>>,
    count: usize,
    config: EnumErrConfig,
)
    requires
        count + s.len() <= usize::MAX,
    ensures
        enum_err_spec(s, count, config).len() == s.len(),
        forall|i: int|
            0 <= i < s.len() && s[i] is Err ==> (#[trigger] enum_err_spec(s, count, config)[i])
                == Err::<T, (usize, E)>(
                (((count + err_advances(s.take(i + 1), config)) as usize), s[i]->Err_0),
            ),
        forall|i: int|
            0 <= i < s.len() && s[i] is Ok ==> (#[trigger] enum_err_spec(s, count, config)[i])
                == Ok::<T, (usize, E)>(s[i]->Ok_0),
        forall|i: int| 0 <= i <= s.len() ==> count + err_advances(#[trigger] s.take(i), config) <= count + i,
    decreases s.len(),
{
    assert forall|i: int| 0 <= i <= s.len() implies count + err_advances(
        #[trigger] s.take(i),
        config,
    ) <= count + i by {
        assert(s.take(0) =~= Seq::<Result<T, E>>::empty());
        lemma_err_advances_take_monotonic(s, config, 0, i);
    }
    if s.len() > 0 {
        let c1 = ((count + err_advance(s[0], config)) as usize);
        let tail = s.drop_first();
        lemma_enumerate_err_counters(tail, c1, config);
        assert forall|i: int|
            0 <= i < s.len() && s[i] is Err implies (#[trigger] enum_err_spec(s, count, config)[i])
            == Err::<T, (usize, E)>(
            (((count + err_advances(s.take(i + 1), config)) as usize), s[i]->Err_0),
        ) by {
            if i == 0 {
                assert(s.take(1).drop_first() =~= Seq::<Result<T, E>>::empty());
                assert(s.take(1)[0] == s[0]);
            } else {
                assert(enum_err_spec(s, count, config)[i] == enum_err_spec(tail, c1, config)[i
                    - 1]);
                assert(tail[i - 1] == s[i]);
                assert(s.take(i + 1).drop_first() =~= tail.take(i));
                assert(s.take(i + 1)[0] == s[0]);
            }
        }
        assert forall|i: int|
            0 <= i < s.len() && s[i] is Ok implies (#[trigger] enum_err_spec(s, count, config)[i])
            == Ok::<T, (usize, E)>(s[i]->Ok_0) by {
            if i > 0 {
                assert(enum_err_spec(s, count, config)[i] == enum_err_spec(tail, c1, config)[i
                    - 1]);
                assert(tail[i - 1] == s[i]);
            }
        }
    }
}

/// Counter monotonicity: between two successes, the attached counter grows by
/// exactly the number of policy-dictated increments between them — in
/// particular it grows by the success's own increment of one, so attached
/// counters are strictly increasing.
pub proof fn lemma_enumerate_ok_counter_monotonic<T, E>(
    s: Seq<Result<T, E>>,
    count: usize,
    config: EnumOkConfig,
)
    requires
        count + s.len() <= usize::MAX,
    ensures
        forall|i: int, j: int|
            #![trigger enum_ok_spec(s, count, config)[i], enum_ok_spec(s, count, config)[j]]
            0 <= i < j < s.len() && s[i] is Ok && s[j] is Ok ==> {
                let ci = enum_ok_spec(s, count, config)[i]->Ok_0.0;
                let cj = enum_ok_spec(s, count, config)[j]->Ok_0.0;
                ci + ok_advances(s.take(j + 1), config) == cj + ok_advances(s.take(i + 1), config)
                    && ci < cj
            },
{
    lemma_enumerate_ok_counters(s, count, config);
    assert forall|i: int, j: int|
        #![trigger enum_ok_spec(s, count, config)[i], enum_ok_spec(s, count, config)[j]]
        0 <= i < j < s.len() && s[i] is Ok && s[j] is Ok implies {
        let ci = enum_ok_spec(s, count, config)[i]->Ok_0.0;
        let cj = enum_ok_spec(s, count, config)[j]->Ok_0.0;
        ci + ok_advances(s.take(j + 1), config) == cj + ok_advances(s.take(i + 1), config) && ci
            < cj
    } by {
        lemma_ok_advances_take_monotonic(s, config, i + 1, j);
        lemma_ok_advances_take_step(s, config, j);
    }
}

/// Counter monotonicity for the failure-counting adapter.
pub proof fn lemma_enumerate_err_counter_monotonic<T, E>(
    s: Seq<Result<T, E>>,
    count: usize,
    config: EnumErrConfig,
)
    requires
        count + s.len() <= usize::MAX,
    ensures
        forall|i: int, j: int|
            #![trigger enum_err_spec(s, count, config)[i], enum_err_spec(s, count, config)[j]]
            0 <= i < j < s.len() && s[i] is Err && s[j] is Err ==> {
                let ci = enum_err_spec(s, count, config)[i]->Err_0.0;
                let cj = enum_err_spec(s, count, config)[j]->Err_0.0;
                ci + err_advances(s.take(j + 1), config) == cj + err_advances(s.take(i + 1), config)
                    && ci < cj
            },
{
    lemma_enumerate_err_counters(s, count, config);
    assert forall|i: int, j: int|
        #![trigger enum_err_spec(s, count, config)[i], enum_err_spec(s, count, config)[j]]
        0 <= i < j < s.len() && s[i] is Err && s[j] is Err implies {
        let ci = enum_err_spec(s, count, config)[i]->Err_0.0;
        let cj = enum_err_spec(s, count, config)[j]->Err_0.0;
        ci + err_advances(s.take(j + 1), config) == cj + err_advances(s.take(i + 1), config) && ci
            < cj
    } by {
        lemma_err_advances_take_monotonic(s, config, i + 1, j);
        lemma_err_advances_take_step(s, config, j);
    }
}

/// Policy independence for the pass-through side: under any two policies the
/// success-counting adapter passes exactly the same failures through,
/// unchanged and without a counter, and attaches counters at exactly the same
/// positions — only the attached counter values may differ.
pub proof fn lemma_enumerate_ok_policy_independence<T, E>(
    s: Seq<Result<T, E>>,
    count_a: usize,
    count_b: usize,
    config_a: EnumOkConfig,
    config_b: EnumOkConfig,
)
    ensures
        forall|i: int|
            0 <= i < s.len() && s[i] is Err ==> (#[trigger] enum_ok_spec(s, count_a, config_a)[i])
                == enum_ok_spec(s, count_b, config_b)[i],
        forall|i: int|
            0 <= i < s.len() ==> ((#[trigger] enum_ok_spec(s, count_a, config_a)[i]) is Ok
                <==> enum_ok_spec(s, count_b, config_b)[i] is Ok),
    decreases s.len(),
{
    lemma_enumerate_ok_variant_preservation(s, count_a, config_a);
    lemma_enumerate_ok_variant_preservation(s, count_b, config_b);
    if s.len() > 0 {
        let ca = ((count_a + ok_advance(s[0], config_a)) as usize);
        let cb = ((count_b + ok_advance(s[0], config_b)) as usize);
        let tail = s.drop_first();
        lemma_enumerate_ok_policy_independence(tail, ca, cb, config_a, config_b);
        assert forall|i: int|
            0 <= i < s.len() && s[i] is Err implies (#[trigger] enum_ok_spec(
            s,
            count_a,
            config_a,
        )[i]) == enum_ok_spec(s, count_b, config_b)[i] by {
            if i > 0 {
                assert(enum_ok_spec(s, count_a, config_a)[i] == enum_ok_spec(tail, ca, config_a)[i
                    - 1]);
                assert(enum_ok_spec(s, count_b, config_b)[i] == enum_ok_spec(tail, cb, config_b)[i
                    - 1]);
                assert(tail[i - 1] == s[i]);
            }
        }
    }
}

/// Policy independence for the failure-counting adapter: under any two
/// policies it passes exactly the same successes through, unchanged and
/// without a counter, and attaches counters at exactly the same positions.
pub proof fn lemma_enumerate_err_policy_independence<T, E>(
    s: Seq<Result<T, E>>,
    count_a: usize,
    count_b: usize,
    config_a: EnumErrConfig,
    config_b: EnumErrConfig,
)
    ensures
        forall|i: int|
            0 <= i < s.len() && s[i] is Ok ==> (#[trigger] enum_err_spec(s, count_a, config_a)[i])
                == enum_err_spec(s, count_b, config_b)[i],
        forall|i: int|
            0 <= i < s.len() ==> ((#[trigger] enum_err_spec(s, count_a, config_a)[i]) is Ok
                <==> enum_err_spec(s, count_b, config_b)[i] is Ok),
    decreases s.len(),
{
    lemma_enumerate_err_variant_preservation(s, count_a, config_a);
    lemma_enumerate_err_variant_preservation(s, count_b, config_b);
    if s.len() > 0 {
        let ca = ((count_a + err_advance(s[0], config_a)) as usize);
        let cb = ((count_b + err_advance(s[0], config_b)) as usize);
        let tail = s.drop_first();
        lemma_enumerate_err_policy_independence(tail, ca, cb, config_a, config_b);
        assert forall|i: int|
            0 <= i < s.len() && s[i] is Ok implies (#[trigger] enum_err_spec(
            s,
            count_a,
            config_a,
        )[i]) == enum_err_spec(s, count_b, config_b)[i] by {
            if i > 0 {
                assert(enum_err_spec(s, count_a, config_a)[i] == enum_err_spec(tail, ca, config_a)[
                    i - 1]);
                assert(enum_err_spec(s, count_b, config_b)[i] == enum_err_spec(tail, cb, config_b)[
                    i - 1]);
                assert(tail[i - 1] == s[i]);
            }
        }
    }
}

} // verus!
