use ulist::{BooleanList, IndexList, IntegerList32, StringList, UListError};

fn ints(v: Vec<Option<i32>>) -> IntegerList32 {
    IntegerList32::from_options(v)
}

#[test]
fn construction_and_access() {
    let l = ints(vec![Some(1), None, Some(3)]);
    assert_eq!(l.size(), 3);
    assert_eq!(l.count_na(), 1);
    assert!(l.has_na());
    assert_eq!(l.get(0), Ok(Some(1)));
    assert_eq!(l.get(1), Ok(None));
    assert_eq!(l.get(2), Ok(Some(3)));
    assert_eq!(l.get(3), Err(UListError::IndexOutOfRange));
}

#[test]
fn new_with_na_indexes() {
    let l = IntegerList32::new(vec![7, 8, 9], vec![1]);
    assert_eq!(l.to_list(), vec![Some(7), None, Some(9)]);
    // an out-of-range missing index is ignored
    let l2 = IntegerList32::new(vec![7], vec![5]);
    assert_eq!(l2.to_list(), vec![Some(7)]);
}

#[test]
fn set_and_errors() {
    let mut l = ints(vec![Some(1), Some(2)]);
    assert_eq!(l.set(0, None), Ok(()));
    assert_eq!(l.set(1, Some(5)), Ok(()));
    assert_eq!(l.set(2, Some(9)), Err(UListError::IndexOutOfRange));
    assert_eq!(l.to_list(), vec![None, Some(5)]);
}

#[test]
fn append_pop() {
    let mut l = ints(vec![]);
    assert_eq!(l.pop(), Err(UListError::EmptyCollection));
    l.append(Some(4));
    l.append(None);
    assert_eq!(l.size(), 2);
    assert_eq!(l.count_na(), 1);
    assert_eq!(l.pop(), Ok(()));
    assert_eq!(l.pop(), Ok(()));
    assert_eq!(l.size(), 0);
    assert_eq!(l.pop(), Err(UListError::EmptyCollection));
}

#[test]
fn copy_is_deep() {
    let mut l = ints(vec![Some(1), None]);
    let c = l.copy();
    l.set(0, Some(9)).unwrap();
    assert_eq!(c.to_list(), vec![Some(1), None]);
    assert_eq!(l.to_list(), vec![Some(9), None]);
}

#[test]
fn union_all_shifts_missing() {
    let a = ints(vec![Some(1), None]);
    let b = ints(vec![None, Some(4)]);
    let u = a.union_all(&b);
    assert_eq!(u.to_list(), vec![Some(1), None, None, Some(4)]);
}

#[test]
fn filter_keeps_order_and_remaps_missing() {
    let l = ints(vec![Some(1), None, Some(3), None, Some(5)]);
    let mask = BooleanList::from_options(vec![
        Some(true),
        Some(true),
        Some(false),
        Some(true),
        Some(true),
    ]);
    let f = l.filter(&mask).unwrap();
    assert_eq!(f.to_list(), vec![Some(1), None, None, Some(5)]);
}

#[test]
fn filter_rejects_bad_masks() {
    let l = ints(vec![Some(1), Some(2)]);
    let short = BooleanList::from_options(vec![Some(true)]);
    assert_eq!(l.filter(&short).unwrap_err(), UListError::SizeMismatch);
    let missing = BooleanList::from_options(vec![Some(true), None]);
    assert_eq!(l.filter(&missing).unwrap_err(), UListError::ContainsMissing);
}

#[test]
fn gather_by_indexes() {
    let l = ints(vec![Some(10), None, Some(30)]);
    let idx = IndexList::new(vec![2, 0, 1, 0]);
    let g = l.get_by_indexes(&idx).unwrap();
    assert_eq!(g.to_list(), vec![Some(30), Some(10), None, Some(10)]);
}

#[test]
fn gather_bounds_fail_and_mutate_nothing() {
    let l = ints(vec![Some(10), None, Some(30)]);
    let idx = IndexList::new(vec![0, 3]);
    assert_eq!(l.get_by_indexes(&idx).unwrap_err(), UListError::IndexOutOfRange);
    // the source is untouched
    assert_eq!(l.to_list(), vec![Some(10), None, Some(30)]);
}

#[test]
fn equality_ops_propagate_missing() {
    let a = ints(vec![Some(1), None, Some(3)]);
    let b = ints(vec![Some(1), Some(2), Some(4)]);
    let eq = a.equal(&b).unwrap();
    assert_eq!(eq.to_list(), vec![Some(true), None, Some(false)]);
    let ne = a.not_equal(&b).unwrap();
    assert_eq!(ne.to_list(), vec![Some(false), None, Some(true)]);
    let short = ints(vec![Some(1)]);
    assert_eq!(a.equal(&short).unwrap_err(), UListError::SizeMismatch);
    let eqs = a.equal_scala(&1);
    assert_eq!(eqs.to_list(), vec![Some(true), None, Some(false)]);
    let nes = a.not_equal_scala(&1);
    assert_eq!(nes.to_list(), vec![Some(false), None, Some(true)]);
}

#[test]
fn all_equal_cases() {
    let a = ints(vec![Some(1), Some(2)]);
    let b = ints(vec![Some(1), Some(2)]);
    assert_eq!(a.all_equal(&b), Some(true));
    let c = ints(vec![Some(1), Some(3)]);
    assert_eq!(a.all_equal(&c), Some(false));
    let d = ints(vec![Some(1)]);
    assert_eq!(a.all_equal(&d), Some(false));
    let e = ints(vec![Some(1), None]);
    assert_eq!(a.all_equal(&e), None);
    // a differing pair wins over a missing position
    let f = ints(vec![None, Some(9)]);
    assert_eq!(a.all_equal(&f), Some(false));
}

#[test]
fn round_trip_reconstruction() {
    // no missing positions: reconstruction is reported equal
    let a = ints(vec![Some(5), Some(6)]);
    let again = ints(a.to_list());
    assert_eq!(a.all_equal(&again), Some(true));
    // mixed positions: the value round-trips exactly, and the whole-list
    // check reports None because missing positions compare as unknown
    let b = ints(vec![Some(5), None, Some(7)]);
    let again = ints(b.to_list());
    assert_eq!(b.to_list(), again.to_list());
    assert_eq!(b.all_equal(&again), None);
}

#[test]
fn rebuilt_preserves_everything() {
    let a = ints(vec![Some(5), None, Some(7), None]);
    let b = a.rebuilt();
    assert_eq!(a.to_list(), b.to_list());
    assert_eq!(a.size(), b.size());
    assert_eq!(a.count_na(), b.count_na());
}

#[test]
fn replace_all_four_cases() {
    let mut l = ints(vec![Some(1), Some(2), None, Some(1)]);
    l.replace(Some(1), Some(9));
    assert_eq!(l.to_list(), vec![Some(9), Some(2), None, Some(9)]);
    l.replace(Some(2), None);
    assert_eq!(l.to_list(), vec![Some(9), None, None, Some(9)]);
    l.replace(None, Some(0));
    assert_eq!(l.to_list(), vec![Some(9), Some(0), Some(0), Some(9)]);
    let before = l.to_list();
    l.replace(None, None);
    assert_eq!(l.to_list(), before);
}

#[test]
fn replace_missing_sentinel_is_not_a_value() {
    // 0 is the storage sentinel for missing integers; replacing the value 0
    // must not touch missing positions
    let mut l = ints(vec![Some(0), None]);
    l.replace(Some(0), Some(8));
    assert_eq!(l.to_list(), vec![Some(8), None]);
}

#[test]
fn repeat_and_cycle() {
    let r = IntegerList32::repeat(Some(7), 3);
    assert_eq!(r.to_list(), vec![Some(7), Some(7), Some(7)]);
    let rn = IntegerList32::repeat(None, 2);
    assert_eq!(rn.to_list(), vec![None, None]);
    let c = IntegerList32::cycle(&vec![1, 2], 5);
    assert_eq!(c.to_list(), vec![Some(1), Some(2), Some(1), Some(2), Some(1)]);
    let empty = IntegerList32::cycle(&vec![], 4);
    assert_eq!(empty.size(), 0);
}

#[test]
fn invariants_hold_through_op_sequences() {
    let mut l = ints(vec![Some(3), None, Some(1)]);
    l.append(None);
    l.append(Some(2));
    assert_eq!(l.size(), 5);
    assert_eq!(l.count_na(), 2);
    l.set(0, None).unwrap();
    assert_eq!(l.count_na(), 3);
    l.pop().unwrap();
    assert_eq!(l.size(), 4);
    assert_eq!(l.count_na(), 3);
    let mask = BooleanList::from_options(vec![Some(true), Some(true), Some(true), Some(false)]);
    let l = l.filter(&mask).unwrap();
    assert_eq!(l.size(), 3);
    assert_eq!(l.count_na(), 2);
    let u = l.union_all(&l.copy());
    assert_eq!(u.size(), 6);
    assert_eq!(u.count_na(), 4);
    let mut u = u;
    u.sort(true);
    assert_eq!(u.size(), 6);
    assert_eq!(u.count_na(), 4);
    // every read stays within bounds after the whole sequence
    for i in 0..u.size() {
        assert!(u.get(i).is_ok());
    }
}

#[test]
fn index_list_basics() {
    let idx = IndexList::new(vec![4, 1, 3]);
    assert_eq!(idx.size(), 3);
    assert_eq!(idx.back(), 3);
    assert_eq!(idx.to_list(), vec![4, 1, 3]);
    assert_eq!(idx.values(), &vec![4, 1, 3]);
}

#[test]
fn string_list_core_ops() {
    let l = StringList::from_options(vec![
        Some("pear".to_string()),
        None,
        Some("fig".to_string()),
    ]);
    assert_eq!(l.size(), 3);
    assert_eq!(l.get(1), Ok(None));
    assert_eq!(l.get(2), Ok(Some("fig".to_string())));
    let eq = l.equal_scala(&"fig".to_string());
    assert_eq!(eq.to_list(), vec![Some(false), None, Some(true)]);
}
