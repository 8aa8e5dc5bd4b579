use ulist::{BooleanList, IntegerList32, IntegerList64, StringList, UListError};

fn strs(v: Vec<Option<&str>>) -> StringList {
    StringList::from_options(v.into_iter().map(|o| o.map(|s| s.to_string())).collect())
}

#[test]
fn bool_to_numeric_and_text() {
    let b = BooleanList::from_options(vec![Some(true), None, Some(false)]);
    assert_eq!(b.as_int32().to_list(), vec![Some(1), None, Some(0)]);
    assert_eq!(b.as_int64().to_list(), vec![Some(1), None, Some(0)]);
    assert_eq!(
        b.as_str().to_list(),
        vec![Some("true".to_string()), None, Some("false".to_string())]
    );
}

#[test]
fn int_to_bool_nonzero() {
    let a = IntegerList32::from_options(vec![Some(0), Some(-3), None, Some(2)]);
    assert_eq!(
        a.as_bool().to_list(),
        vec![Some(false), Some(true), None, Some(true)]
    );
    let a = IntegerList64::from_options(vec![Some(0), None]);
    assert_eq!(a.as_bool().to_list(), vec![Some(false), None]);
}

#[test]
fn int_widen_and_narrow() {
    let a = IntegerList32::from_options(vec![Some(-5), None, Some(7)]);
    assert_eq!(a.as_int64().to_list(), vec![Some(-5), None, Some(7)]);
    let b = IntegerList64::from_options(vec![Some(-5), None, Some(1 << 40)]);
    let n = b.as_int32();
    assert_eq!(n.get(0), Ok(Some(-5)));
    assert_eq!(n.get(1), Ok(None));
    // narrowing truncates like an `as` cast
    assert_eq!(n.get(2), Ok(Some((1i64 << 40) as i32)));
}

#[test]
fn int_to_canonical_text() {
    let a = IntegerList32::from_options(vec![Some(-42), Some(0), None, Some(2147483647)]);
    assert_eq!(
        a.as_str().to_list(),
        vec![
            Some("-42".to_string()),
            Some("0".to_string()),
            None,
            Some("2147483647".to_string())
        ]
    );
    let b = IntegerList64::from_options(vec![Some(i64::MIN), Some(i64::MAX)]);
    assert_eq!(
        b.as_str().to_list(),
        vec![
            Some("-9223372036854775808".to_string()),
            Some("9223372036854775807".to_string())
        ]
    );
}

#[test]
fn string_to_numeric() {
    let s = strs(vec![Some("12"), None, Some("-7"), Some("+5")]);
    assert_eq!(
        s.as_int32().unwrap().to_list(),
        vec![Some(12), None, Some(-7), Some(5)]
    );
    assert_eq!(
        s.as_int64().unwrap().to_list(),
        vec![Some(12), None, Some(-7), Some(5)]
    );
    let extremes = strs(vec![Some("-2147483648"), Some("2147483647")]);
    assert_eq!(
        extremes.as_int32().unwrap().to_list(),
        vec![Some(i32::MIN), Some(i32::MAX)]
    );
    let wide = strs(vec![Some("-9223372036854775808"), Some("9223372036854775807")]);
    assert_eq!(
        wide.as_int64().unwrap().to_list(),
        vec![Some(i64::MIN), Some(i64::MAX)]
    );
}

#[test]
fn string_parse_failure_is_hard_error() {
    // a non-missing unparsable value must not become missing
    let s = strs(vec![Some("12"), Some("oops")]);
    assert_eq!(s.as_int32().unwrap_err(), UListError::ParseError);
    assert_eq!(s.as_int64().unwrap_err(), UListError::ParseError);
    // out of range is also a parse failure
    let big = strs(vec![Some("2147483648")]);
    assert_eq!(big.as_int32().unwrap_err(), UListError::ParseError);
    let huge = strs(vec![Some("9223372036854775808")]);
    assert_eq!(huge.as_int64().unwrap_err(), UListError::ParseError);
    // the sentinel of a missing position is never parsed
    let ok = strs(vec![None, Some("3")]);
    assert_eq!(ok.as_int32().unwrap().to_list(), vec![None, Some(3)]);
    // a sign alone, inner spaces, or empty text do not parse
    for bad in ["-", "+", "1 2", "", " 1", "12a"] {
        let s = strs(vec![Some(bad)]);
        assert_eq!(s.as_int32().unwrap_err(), UListError::ParseError);
    }
    // many leading zeros still parse to a small value
    let zeros = strs(vec![Some("000000000000000000000042")]);
    assert_eq!(zeros.as_int32().unwrap().to_list(), vec![Some(42)]);
}

#[test]
fn string_to_bool() {
    let s = strs(vec![Some("true"), None, Some("false")]);
    assert_eq!(
        s.as_bool().unwrap().to_list(),
        vec![Some(true), None, Some(false)]
    );
    let bad = strs(vec![Some("True")]);
    assert_eq!(bad.as_bool().unwrap_err(), UListError::ParseError);
    let also_bad = strs(vec![Some("yes")]);
    assert_eq!(also_bad.as_bool().unwrap_err(), UListError::ParseError);
}

#[test]
fn string_predicates_store_false_at_missing() {
    let s = strs(vec![Some("banana"), None, Some("bandana")]);
    assert_eq!(
        s.contains("ana").to_list(),
        vec![Some(true), Some(false), Some(true)]
    );
    assert_eq!(
        s.starts_with("ban").to_list(),
        vec![Some(true), Some(false), Some(true)]
    );
    assert_eq!(
        s.ends_with("ana").to_list(),
        vec![Some(true), Some(false), Some(true)]
    );
    assert_eq!(
        s.ends_with("ban").to_list(),
        vec![Some(false), Some(false), Some(false)]
    );
    assert_eq!(
        s.contains("").to_list(),
        vec![Some(true), Some(false), Some(true)]
    );
    assert_eq!(
        s.contains("bandanas").to_list(),
        vec![Some(false), Some(false), Some(false)]
    );
}

#[test]
fn ingestion_from_text() {
    let cells: Vec<String> = vec!["3".into(), "".into(), "-1".into()];
    let l = ulist::from_text_i32(&cells).unwrap();
    assert_eq!(l.to_list(), vec![Some(3), None, Some(-1)]);
    let l64 = ulist::from_text_i64(&cells).unwrap();
    assert_eq!(l64.to_list(), vec![Some(3), None, Some(-1)]);
    let bcells: Vec<String> = vec!["true".into(), "".into(), "false".into()];
    let b = ulist::from_text_bool(&bcells).unwrap();
    assert_eq!(b.to_list(), vec![Some(true), None, Some(false)]);
    let scells: Vec<String> = vec!["hi".into(), "".into()];
    let s = ulist::from_text_string(&scells);
    assert_eq!(s.to_list(), vec![Some("hi".to_string()), None]);
    // a non-empty unparsable cell is a fatal ingestion error
    let bad: Vec<String> = vec!["3".into(), "x".into()];
    assert_eq!(ulist::from_text_i32(&bad).unwrap_err(), UListError::ParseError);
    let bad_bool: Vec<String> = vec!["maybe".into()];
    assert_eq!(ulist::from_text_bool(&bad_bool).unwrap_err(), UListError::ParseError);
}

#[test]
fn string_sort_and_unique_and_counter() {
    let s = strs(vec![Some("b"), Some("a"), Some("b"), None]);
    let u = s.unique();
    let mut present: Vec<String> = u.to_list().into_iter().flatten().collect();
    present.sort();
    assert_eq!(present, vec!["a".to_string(), "b".to_string()]);
    assert_eq!(u.count_na(), 1);
    let mut counts = s.counter();
    counts.sort();
    assert_eq!(counts, vec![("a".to_string(), 1), ("b".to_string(), 2)]);
}
