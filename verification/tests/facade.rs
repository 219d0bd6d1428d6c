use series_core::chunked::BinaryChunked;
use series_core::dtype::{AnyValue, DataType, Error, Op};
use series_core::hash::state_from_seed;
use series_core::int64::Int64Chunked;
use series_core::series::Series;
use series_core::sort::SortOptions;

fn by(s: &str) -> Vec<u8> {
    s.as_bytes().to_vec()
}

fn bin_series(name: &str, items: Vec<Option<Vec<u8>>>) -> Series {
    Series::Binary(BinaryChunked::from_options(name.to_string(), items))
}

fn int_series(name: &str, items: Vec<Option<i64>>) -> Series {
    Series::Int64(Int64Chunked::new(name.to_string(), items))
}

#[test]
fn facade_dispatches_sort() {
    let s = bin_series("a", vec![Some(by("b")), Some(by("a")), None]);
    let p = s
        .arg_sort(SortOptions { descending: false, nulls_last: true, multithreaded: false })
        .unwrap();
    assert_eq!(p, vec![1, 0, 2]);
    let sorted = s
        .sort_with(SortOptions { descending: false, nulls_last: true, multithreaded: false })
        .unwrap();
    assert_eq!(sorted.get(0).unwrap(), AnyValue::Binary(by("a")));
    assert_eq!(sorted.get(2).unwrap(), AnyValue::Null);
}

#[test]
fn facade_reports_unsupported_for_integer_store() {
    let n = int_series("n", vec![Some(1), None]);
    assert_eq!(
        n.arg_sort(SortOptions { descending: false, nulls_last: true, multithreaded: false })
            .err()
            .unwrap(),
        Error::Unsupported { op: Op::Sort, dtype: DataType::Int64 }
    );
    assert!(n.unique().is_err());
    assert!(n.group_tuples(false, false).is_err());
    assert!(n.reverse().is_err());
    assert!(n.filter(&vec![true, false]).is_err());
}

#[test]
fn facade_integer_basics_work() {
    let mut n = int_series("n", vec![Some(1), None]);
    assert_eq!(n.len(), 2);
    assert_eq!(n.dtype(), DataType::Int64);
    assert_eq!(n.get(0).unwrap(), AnyValue::Int64(1));
    assert_eq!(n.get(1).unwrap(), AnyValue::Null);
    let m = int_series("m", vec![Some(5)]);
    assert!(n.append(&m).is_ok());
    assert_eq!(n.len(), 3);
    assert_eq!(n.get(2).unwrap(), AnyValue::Int64(5));
}

#[test]
fn facade_extend_merges_chunks() {
    let mut s = bin_series("a", vec![Some(by("x"))]);
    let t = bin_series("b", vec![Some(by("y"))]);
    s.extend(&t).unwrap();
    assert_eq!(s.len(), 2);
    assert_eq!(s.chunk_lengths().unwrap(), vec![2]);
    let mut u = bin_series("c", vec![Some(by("x"))]);
    u.append(&t).unwrap();
    assert_eq!(u.chunk_lengths().unwrap(), vec![1, 1]);
}

#[test]
fn facade_group_and_unique() {
    let s = bin_series("a", vec![Some(by("ab")), None, Some(by("ab")), Some(by("cd"))]);
    let gp = s.group_tuples(true, true).unwrap();
    assert_eq!(gp.groups.len(), 3);
    assert_eq!(s.n_unique().unwrap(), 3);
    assert_eq!(s.arg_unique().unwrap(), vec![0, 1, 3]);
    let u = s.unique().unwrap();
    assert_eq!(u.len(), 3);
}

#[test]
fn facade_null_masks() {
    let s = bin_series("a", vec![Some(by("x")), None]);
    assert_eq!(s.is_null().unwrap(), vec![false, true]);
    assert_eq!(s.is_not_null().unwrap(), vec![true, false]);
    assert_eq!(s.null_count().unwrap(), 1);
    assert_eq!(s.has_validity().unwrap(), true);
}

#[test]
fn facade_hashing() {
    let s = bin_series("a", vec![Some(by("x")), Some(by("x")), None]);
    let state = state_from_seed(11);
    let mut h: Vec<u64> = Vec::new();
    s.vec_hash(&state, &mut h).unwrap();
    assert_eq!(h.len(), 3);
    assert_eq!(h[0], h[1]);
    let mut h2 = h.clone();
    s.vec_hash_combine(&state, &mut h2).unwrap();
    assert_eq!(h2.len(), 3);
    assert_ne!(h2, h);
}

#[test]
fn facade_min_max_as_series() {
    let s = bin_series("a", vec![Some(by("m")), None, Some(by("a"))]);
    let mx = s.max_as_series().unwrap();
    assert_eq!(mx.len(), 1);
    assert_eq!(mx.get(0).unwrap(), AnyValue::Binary(by("m")));
    let mn = s.min_as_series().unwrap();
    assert_eq!(mn.get(0).unwrap(), AnyValue::Binary(by("a")));
    let empty = bin_series("e", vec![None]);
    assert_eq!(empty.max_as_series().unwrap().get(0).unwrap(), AnyValue::Null);
}

#[test]
fn facade_slice_and_take() {
    let s = bin_series("a", vec![Some(by("p")), Some(by("q")), Some(by("r"))]);
    let sl = s.slice(1, 5).unwrap();
    assert_eq!(sl.len(), 2);
    assert_eq!(sl.get(0).unwrap(), AnyValue::Binary(by("q")));
    let t = s.take(&vec![2, 0]).unwrap();
    assert_eq!(t.get(0).unwrap(), AnyValue::Binary(by("r")));
    assert!(s.take(&vec![3]).is_err());
    let tu = s.take_unchecked(&vec![1]).unwrap();
    assert_eq!(tu.get(0).unwrap(), AnyValue::Binary(by("q")));
}

#[test]
fn facade_rechunk_and_flags() {
    let mut s = bin_series("a", vec![Some(by("x"))]);
    let t = bin_series("b", vec![Some(by("y"))]);
    s.append(&t).unwrap();
    let r = s.rechunk().unwrap();
    assert_eq!(r.chunk_lengths().unwrap(), vec![2]);
    assert_eq!(r.len(), s.len());
    let flags = s.get_flags();
    assert!(!flags.sorted_ascending && !flags.sorted_descending);
}

#[test]
fn facade_zip_with_same_type() {
    let a = bin_series("a", vec![Some(by("1")), Some(by("2"))]);
    let b = bin_series("b", vec![Some(by("x")), Some(by("y"))]);
    let z = a.zip_with_same_type(&vec![false, true], &b).unwrap();
    assert_eq!(z.get(0).unwrap(), AnyValue::Binary(by("x")));
    assert_eq!(z.get(1).unwrap(), AnyValue::Binary(by("2")));
    let n = int_series("n", vec![Some(1), Some(2)]);
    assert!(a.zip_with_same_type(&vec![true, true], &n).is_err());
}
