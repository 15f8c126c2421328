use enumerate_result::enumerate::{
    EnumErrConfig, EnumOkConfig, EnumerateResult, ResultSequence, VecResultSequence,
};

fn mixed_input() -> Vec<Result<i64, i64>> {
    vec![Ok(10), Err(-1), Err(-2), Ok(20), Err(-3), Ok(30), Ok(40)]
}

fn drain_ok(
    items: Vec<Result<i64, i64>>,
    config: EnumOkConfig,
) -> Vec<Result<(usize, i64), i64>> {
    let mut it = VecResultSequence::new(items).enumerate_ok(config);
    let mut out = Vec::new();
    while let Some(x) = it.next() {
        out.push(x);
    }
    out
}

fn drain_err(
    items: Vec<Result<i64, i64>>,
    config: EnumErrConfig,
) -> Vec<Result<i64, (usize, i64)>> {
    let mut it = VecResultSequence::new(items).enumerate_err(config);
    let mut out = Vec::new();
    while let Some(x) = it.next() {
        out.push(x);
    }
    out
}

#[test]
fn cardinality_is_preserved() {
    let n: usize = mixed_input().len();
    assert_eq!(drain_ok(mixed_input(), EnumOkConfig::IgnoreErr).len(), n);
    assert_eq!(drain_ok(mixed_input(), EnumOkConfig::CountErr).len(), n);
    assert_eq!(drain_err(mixed_input(), EnumErrConfig::IgnoreOk).len(), n);
    assert_eq!(drain_err(mixed_input(), EnumErrConfig::CountOk).len(), n);
}

#[test]
fn variant_tags_are_preserved() {
    let input = mixed_input();
    let out_ok = drain_ok(mixed_input(), EnumOkConfig::CountErr);
    let out_err = drain_err(mixed_input(), EnumErrConfig::CountOk);
    for i in 0..input.len() {
        assert_eq!(input[i].is_ok(), out_ok[i].is_ok());
        assert_eq!(input[i].is_ok(), out_err[i].is_ok());
    }
}

#[test]
fn counters_increase_by_one_per_counted_element() {
    // IgnoreErr: only successes advance the counter, so the attached counters
    // are exactly 1, 2, 3, ...
    let counters: Vec<usize> = drain_ok(mixed_input(), EnumOkConfig::IgnoreErr)
        .into_iter()
        .filter_map(|x| x.ok().map(|(c, _)| c))
        .collect();
    assert_eq!(counters, vec![1, 2, 3, 4]);

    // CountErr: every element advances the counter, so each success carries
    // its 1-based position.
    let counters: Vec<usize> = drain_ok(mixed_input(), EnumOkConfig::CountErr)
        .into_iter()
        .filter_map(|x| x.ok().map(|(c, _)| c))
        .collect();
    assert_eq!(counters, vec![1, 4, 6, 7]);

    let counters: Vec<usize> = drain_err(mixed_input(), EnumErrConfig::IgnoreOk)
        .into_iter()
        .filter_map(|x| x.err().map(|(c, _)| c))
        .collect();
    assert_eq!(counters, vec![1, 2, 3]);

    let counters: Vec<usize> = drain_err(mixed_input(), EnumErrConfig::CountOk)
        .into_iter()
        .filter_map(|x| x.err().map(|(c, _)| c))
        .collect();
    assert_eq!(counters, vec![2, 3, 5]);
}

#[test]
fn policy_never_changes_the_pass_through_side() {
    let ignored = drain_ok(mixed_input(), EnumOkConfig::IgnoreErr);
    let counted = drain_ok(mixed_input(), EnumOkConfig::CountErr);
    assert_eq!(ignored.len(), counted.len());
    for i in 0..ignored.len() {
        // Counters sit at the same positions under both policies, and the
        // pass-through failures are identical.
        assert_eq!(ignored[i].is_ok(), counted[i].is_ok());
        if ignored[i].is_err() {
            assert_eq!(ignored[i], counted[i]);
        }
    }

    let ignored = drain_err(mixed_input(), EnumErrConfig::IgnoreOk);
    let counted = drain_err(mixed_input(), EnumErrConfig::CountOk);
    assert_eq!(ignored.len(), counted.len());
    for i in 0..ignored.len() {
        assert_eq!(ignored[i].is_ok(), counted[i].is_ok());
        if ignored[i].is_ok() {
            assert_eq!(ignored[i], counted[i]);
        }
    }
}

#[test]
fn count_err_raises_success_counters_by_prior_failures() {
    let ignored = drain_ok(mixed_input(), EnumOkConfig::IgnoreErr);
    let counted = drain_ok(mixed_input(), EnumOkConfig::CountErr);
    let mut prior_failures: usize = 0;
    for i in 0..ignored.len() {
        match (&ignored[i], &counted[i]) {
            (Ok((ci, ti)), Ok((cc, tc))) => {
                assert_eq!(ti, tc);
                assert_eq!(ci + prior_failures, *cc);
            }
            (Err(_), Err(_)) => prior_failures += 1,
            _ => panic!("adapters disagree on the variant at position {i}"),
        }
    }
}

#[test]
fn payloads_pass_through_unchanged() {
    let input = mixed_input();
    let out = drain_ok(mixed_input(), EnumOkConfig::CountErr);
    for i in 0..input.len() {
        match (&input[i], &out[i]) {
            (Ok(t), Ok((_, u))) => assert_eq!(t, u),
            (Err(e), Err(f)) => assert_eq!(e, f),
            _ => panic!("variant changed at position {i}"),
        }
    }
    let out = drain_err(mixed_input(), EnumErrConfig::CountOk);
    for i in 0..input.len() {
        match (&input[i], &out[i]) {
            (Ok(t), Ok(u)) => assert_eq!(t, u),
            (Err(e), Err((_, f))) => assert_eq!(e, f),
            _ => panic!("variant changed at position {i}"),
        }
    }
}
