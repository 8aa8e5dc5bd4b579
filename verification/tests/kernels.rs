use ulist::{BooleanList, IndexList, IntegerList32, IntegerList64, StringList, UListError};

fn ints(v: Vec<Option<i32>>) -> IntegerList32 {
    IntegerList32::from_options(v)
}

fn bools(v: Vec<Option<bool>>) -> BooleanList {
    BooleanList::from_options(v)
}

#[test]
fn arithmetic_propagates_missing() {
    let a = ints(vec![Some(1), None, Some(3), Some(4)]);
    let b = ints(vec![Some(10), Some(20), None, Some(40)]);
    let sum = a.add(&b).unwrap();
    assert_eq!(sum.to_list(), vec![Some(11), None, None, Some(44)]);
    let diff = a.sub(&b).unwrap();
    assert_eq!(diff.to_list(), vec![Some(-9), None, None, Some(-36)]);
    let prod = a.mul(&b).unwrap();
    assert_eq!(prod.to_list(), vec![Some(10), None, None, Some(160)]);
    // null propagation is two-sided: missing exactly where either side is
    for i in 0..a.size() {
        let missing = a.get(i).unwrap().is_none() || b.get(i).unwrap().is_none();
        assert_eq!(sum.get(i).unwrap().is_none(), missing);
        assert_eq!(diff.get(i).unwrap().is_none(), missing);
        assert_eq!(prod.get(i).unwrap().is_none(), missing);
    }
}

#[test]
fn arithmetic_size_mismatch() {
    let a = ints(vec![Some(1)]);
    let b = ints(vec![Some(1), Some(2)]);
    assert_eq!(a.add(&b).unwrap_err(), UListError::SizeMismatch);
    assert_eq!(a.sub(&b).unwrap_err(), UListError::SizeMismatch);
    assert_eq!(a.mul(&b).unwrap_err(), UListError::SizeMismatch);
}

#[test]
fn scalar_arithmetic() {
    let a = ints(vec![Some(1), None, Some(3)]);
    assert_eq!(a.add_scala(&10).to_list(), vec![Some(11), None, Some(13)]);
    assert_eq!(a.sub_scala(&1).to_list(), vec![Some(0), None, Some(2)]);
    assert_eq!(a.mul_scala(&-2).to_list(), vec![Some(-2), None, Some(-6)]);
}

#[test]
fn pow_scala_exact() {
    let a = ints(vec![Some(2), None, Some(-3)]);
    assert_eq!(a.pow_scala(0).to_list(), vec![Some(1), None, Some(1)]);
    assert_eq!(a.pow_scala(3).to_list(), vec![Some(8), None, Some(-27)]);
}

#[test]
fn sum_skips_missing() {
    let a = ints(vec![Some(1), None, Some(3)]);
    assert_eq!(a.sum(), 4);
    let empty = ints(vec![]);
    assert_eq!(empty.sum(), 0);
    let all_missing = ints(vec![None, None]);
    assert_eq!(all_missing.sum(), 0);
}

#[test]
fn reductions_exclude_missing() {
    let a = ints(vec![None, Some(5), Some(-2), None, Some(9), Some(9)]);
    assert_eq!(a.max(), Ok(9));
    assert_eq!(a.min(), Ok(-2));
    // ties resolve to the earliest index
    assert_eq!(a.argmax(), Ok(4));
    assert_eq!(a.argmin(), Ok(2));
}

#[test]
fn reductions_all_missing_fail() {
    let a = ints(vec![None, None]);
    assert_eq!(a.max().unwrap_err(), UListError::AllMissing);
    assert_eq!(a.min().unwrap_err(), UListError::AllMissing);
    assert_eq!(a.argmax().unwrap_err(), UListError::AllMissing);
    assert_eq!(a.argmin().unwrap_err(), UListError::AllMissing);
}

#[test]
fn order_comparisons() {
    let a = ints(vec![Some(1), None, Some(5)]);
    let b = ints(vec![Some(2), Some(2), Some(5)]);
    assert_eq!(a.greater_than(&b).unwrap().to_list(), vec![Some(false), None, Some(false)]);
    assert_eq!(
        a.greater_than_or_equal(&b).unwrap().to_list(),
        vec![Some(false), None, Some(true)]
    );
    assert_eq!(a.less_than(&b).unwrap().to_list(), vec![Some(true), None, Some(false)]);
    assert_eq!(a.less_than_or_equal(&b).unwrap().to_list(), vec![Some(true), None, Some(true)]);
    assert_eq!(a.greater_than_scala(&1).to_list(), vec![Some(false), None, Some(true)]);
    assert_eq!(a.greater_than_or_equal_scala(&1).to_list(), vec![Some(true), None, Some(true)]);
    assert_eq!(a.less_than_scala(&5).to_list(), vec![Some(true), None, Some(false)]);
    assert_eq!(a.less_than_or_equal_scala(&0).to_list(), vec![Some(false), None, Some(false)]);
}

#[test]
fn kleene_and_scenario() {
    let a = bools(vec![None, Some(false), Some(true)]);
    let b = bools(vec![Some(false), None, None]);
    let r = a.and_(&b).unwrap();
    assert_eq!(r.to_list(), vec![Some(false), Some(false), None]);
}

#[test]
fn kleene_or_truth_table() {
    let a = bools(vec![None, None, None, Some(true), Some(false)]);
    let b = bools(vec![Some(true), Some(false), None, None, None]);
    let r = a.or_(&b).unwrap();
    assert_eq!(r.to_list(), vec![Some(true), None, None, Some(true), None]);
    let short = bools(vec![Some(true)]);
    assert_eq!(a.or_(&short).unwrap_err(), UListError::SizeMismatch);
    assert_eq!(a.and_(&short).unwrap_err(), UListError::SizeMismatch);
}

#[test]
fn boolean_not_all_any() {
    let a = bools(vec![Some(true), None, Some(false)]);
    assert_eq!(a.not_().to_list(), vec![Some(false), None, Some(true)]);
    assert_eq!(a.all(), Some(false));
    assert_eq!(a.any(), Some(true));
    let unknown = bools(vec![Some(true), None]);
    assert_eq!(unknown.all(), None);
    let nothing_true = bools(vec![Some(false), None]);
    assert_eq!(nothing_true.any(), None);
    let solid = bools(vec![Some(true), Some(true)]);
    assert_eq!(solid.all(), Some(true));
    assert_eq!(bools(vec![Some(false)]).any(), Some(false));
}

#[test]
fn boolean_sum_and_to_index() {
    let a = bools(vec![Some(true), None, Some(false), Some(true)]);
    assert_eq!(a.sum(), 2);
    assert_eq!(a.to_index().to_list(), vec![0, 3]);
}

#[test]
fn sort_partitions_missing_to_tail() {
    let mut l = ints(vec![Some(3), None, Some(1), Some(2), None]);
    l.sort(true);
    assert_eq!(l.to_list(), vec![Some(1), Some(2), Some(3), None, None]);
}

#[test]
fn sort_is_idempotent() {
    let mut l = ints(vec![Some(3), None, Some(1), Some(2), None]);
    l.sort(true);
    let once = l.to_list();
    l.sort(true);
    assert_eq!(l.to_list(), once);
}

#[test]
fn sort_descending_and_edge_shapes() {
    let mut l = ints(vec![None, Some(1), Some(3), None, Some(2)]);
    l.sort(false);
    assert_eq!(l.to_list(), vec![Some(3), Some(2), Some(1), None, None]);
    // all missing: a no-op shape
    let mut m = ints(vec![None, None, None]);
    m.sort(true);
    assert_eq!(m.to_list(), vec![None, None, None]);
    // no missing
    let mut p = ints(vec![Some(2), Some(1)]);
    p.sort(true);
    assert_eq!(p.to_list(), vec![Some(1), Some(2)]);
    // missing at both ends and the middle
    let mut q = ints(vec![None, Some(4), None, Some(3), None]);
    q.sort(true);
    assert_eq!(q.to_list(), vec![Some(3), Some(4), None, None, None]);
    // empty
    let mut e = ints(vec![]);
    e.sort(true);
    assert_eq!(e.size(), 0);
}

#[test]
fn sort_strings_lexicographic() {
    let mut l = StringList::from_options(vec![
        Some("pear".to_string()),
        None,
        Some("apple".to_string()),
        Some("fig".to_string()),
    ]);
    l.sort(true);
    assert_eq!(
        l.to_list(),
        vec![
            Some("apple".to_string()),
            Some("fig".to_string()),
            Some("pear".to_string()),
            None
        ]
    );
}

#[test]
fn unique_collapses_duplicates() {
    let l = ints(vec![Some(1), Some(1), None, Some(2), None]);
    let u = l.unique();
    let mut present: Vec<i32> = u.to_list().into_iter().flatten().collect();
    present.sort();
    assert_eq!(present, vec![1, 2]);
    assert_eq!(u.size(), 3);
    assert_eq!(u.count_na(), 1);
    // the single missing slot sits at the end
    assert_eq!(u.get(u.size() - 1), Ok(None));
}

#[test]
fn unique_without_missing() {
    let l = ints(vec![Some(5), Some(5), Some(5)]);
    let u = l.unique();
    assert_eq!(u.to_list(), vec![Some(5)]);
}

#[test]
fn counter_counts_values_not_sentinels() {
    let l = ints(vec![Some(1), Some(1), None, Some(2), None, Some(0)]);
    let mut counts = l.counter();
    counts.sort();
    // missing positions are not counted, even though they store 0
    assert_eq!(counts, vec![(0, 1), (1, 2), (2, 1)]);
}

#[test]
fn select_end_to_end() {
    let conditions = vec![
        bools(vec![Some(true), Some(false), Some(false)]),
        bools(vec![Some(false), Some(true), Some(false)]),
    ];
    let choices: Vec<i64> = vec![10, 20];
    let r = ulist::select(&conditions, &choices, 0).unwrap();
    assert_eq!(r.to_list(), vec![Some(10), Some(20), Some(0)]);
}

#[test]
fn select_first_match_wins() {
    let conditions = vec![
        bools(vec![Some(true), Some(true)]),
        bools(vec![Some(true), Some(false)]),
    ];
    let choices: Vec<i64> = vec![1, 2];
    let r = ulist::select(&conditions, &choices, 9).unwrap();
    assert_eq!(r.to_list(), vec![Some(1), Some(1)]);
}

#[test]
fn select_rejects_bad_conditions() {
    let conditions = vec![bools(vec![Some(true)]), bools(vec![Some(true), Some(false)])];
    let choices: Vec<i64> = vec![1, 2];
    assert_eq!(
        ulist::select(&conditions, &choices, 0).unwrap_err(),
        UListError::SizeMismatch
    );
    let conditions = vec![bools(vec![Some(true), None])];
    let choices: Vec<i64> = vec![1];
    assert_eq!(
        ulist::select(&conditions, &choices, 0).unwrap_err(),
        UListError::ContainsMissing
    );
}

#[test]
fn select_monomorphic_forms() {
    let conditions = vec![bools(vec![Some(true), Some(false)])];
    let b = ulist::select_bool(&conditions, &vec![true], false).unwrap();
    assert_eq!(b.to_list(), vec![Some(true), Some(false)]);
    let i = ulist::select_int(&conditions, &vec![5i64], -1).unwrap();
    assert_eq!(i.to_list(), vec![Some(5), Some(-1)]);
    let s = ulist::select_string(&conditions, &vec!["a".to_string()], "z".to_string()).unwrap();
    assert_eq!(s.to_list(), vec![Some("a".to_string()), Some("z".to_string())]);
}

#[test]
fn select_strings() {
    let conditions = vec![bools(vec![Some(false), Some(true)])];
    let choices = vec!["hit".to_string()];
    let r = ulist::select(&conditions, &choices, "miss".to_string()).unwrap();
    assert_eq!(r.to_list(), vec![Some("miss".to_string()), Some("hit".to_string())]);
}

#[test]
fn int64_kernels() {
    let a = IntegerList64::from_options(vec![Some(1_000_000_000_000), None]);
    let b = IntegerList64::from_options(vec![Some(1), Some(2)]);
    assert_eq!(a.add(&b).unwrap().to_list(), vec![Some(1_000_000_000_001), None]);
    assert_eq!(a.sum(), 1_000_000_000_000);
    assert_eq!(a.argmax(), Ok(0));
    let idx = IndexList::new(vec![1, 1, 0]);
    assert_eq!(a.get_by_indexes(&idx).unwrap().to_list(), vec![None, None, Some(1_000_000_000_000)]);
}
