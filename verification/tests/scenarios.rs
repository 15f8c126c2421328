use enumerate_result::enumerate::{
    EnumErrConfig, EnumOkConfig, EnumerateResult, ResultSequence, VecResultSequence,
};

fn input_ok_err_ok() -> Vec<Result<String, String>> {
    vec![
        Ok("a".to_string()),
        Err("x".to_string()),
        Ok("b".to_string()),
    ]
}

fn input_ok_err_err() -> Vec<Result<String, String>> {
    vec![
        Ok("a".to_string()),
        Err("x".to_string()),
        Err("y".to_string()),
    ]
}

#[test]
fn enumerate_ok_ignore_err_scenario() {
    let mut it = VecResultSequence::new(input_ok_err_ok()).enumerate_ok(EnumOkConfig::IgnoreErr);
    assert_eq!(it.next(), Some(Ok((1, "a".to_string()))));
    assert_eq!(it.next(), Some(Err("x".to_string())));
    assert_eq!(it.next(), Some(Ok((2, "b".to_string()))));
    assert_eq!(it.next(), None);
}

#[test]
fn enumerate_ok_count_err_scenario() {
    let mut it = VecResultSequence::new(input_ok_err_ok()).enumerate_ok(EnumOkConfig::CountErr);
    assert_eq!(it.next(), Some(Ok((1, "a".to_string()))));
    assert_eq!(it.next(), Some(Err("x".to_string())));
    assert_eq!(it.next(), Some(Ok((3, "b".to_string()))));
    assert_eq!(it.next(), None);
}

#[test]
fn enumerate_err_ignore_ok_scenario() {
    let mut it = VecResultSequence::new(input_ok_err_err()).enumerate_err(EnumErrConfig::IgnoreOk);
    assert_eq!(it.next(), Some(Ok("a".to_string())));
    assert_eq!(it.next(), Some(Err((1, "x".to_string()))));
    assert_eq!(it.next(), Some(Err((2, "y".to_string()))));
    assert_eq!(it.next(), None);
}

#[test]
fn enumerate_err_count_ok_scenario() {
    let mut it = VecResultSequence::new(input_ok_err_err()).enumerate_err(EnumErrConfig::CountOk);
    assert_eq!(it.next(), Some(Ok("a".to_string())));
    assert_eq!(it.next(), Some(Err((2, "x".to_string()))));
    assert_eq!(it.next(), Some(Err((3, "y".to_string()))));
    assert_eq!(it.next(), None);
}

#[test]
fn empty_input_both_adapters_all_policies() {
    let empty = || VecResultSequence::new(Vec::<Result<u32, u32>>::new());
    assert_eq!(empty().enumerate_ok(EnumOkConfig::IgnoreErr).next(), None);
    assert_eq!(empty().enumerate_ok(EnumOkConfig::CountErr).next(), None);
    assert_eq!(empty().enumerate_err(EnumErrConfig::IgnoreOk).next(), None);
    assert_eq!(empty().enumerate_err(EnumErrConfig::CountOk).next(), None);
}

#[test]
fn exhaustion_is_permanent() {
    let mut it = VecResultSequence::new(vec![Ok::<u32, u32>(7)])
        .enumerate_ok(EnumOkConfig::CountErr);
    assert_eq!(it.next(), Some(Ok((1, 7))));
    assert_eq!(it.next(), None);
    assert_eq!(it.next(), None);
    assert_eq!(it.next(), None);

    let mut it = VecResultSequence::new(vec![Err::<u32, u32>(9)])
        .enumerate_err(EnumErrConfig::CountOk);
    assert_eq!(it.next(), Some(Err((1, 9))));
    assert_eq!(it.next(), None);
    assert_eq!(it.next(), None);
}

#[test]
fn vec_sequence_yields_elements_in_order() {
    let mut s = VecResultSequence::new(vec![Ok::<u32, u32>(1), Err(2), Ok(3)]);
    assert_eq!(s.next(), Some(Ok(1)));
    assert_eq!(s.next(), Some(Err(2)));
    assert_eq!(s.next(), Some(Ok(3)));
    assert_eq!(s.next(), None);
    assert_eq!(s.next(), None);
}

#[test]
fn adapters_compose_as_sequences() {
    // The output of one adapter is itself a result sequence, so the other
    // adapter can wrap it: count the failures of a success-counted sequence.
    let inner = VecResultSequence::new(vec![Ok::<u32, u32>(5), Err(8), Err(6), Ok(4)])
        .enumerate_ok(EnumOkConfig::IgnoreErr);
    let mut it = inner.enumerate_err(EnumErrConfig::IgnoreOk);
    assert_eq!(it.next(), Some(Ok((1, 5))));
    assert_eq!(it.next(), Some(Err((1, 8))));
    assert_eq!(it.next(), Some(Err((2, 6))));
    assert_eq!(it.next(), Some(Ok((2, 4))));
    assert_eq!(it.next(), None);
}
