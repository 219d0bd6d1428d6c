use series_core::chunked::BinaryChunked;
use series_core::dtype::{AnyValue, DataType, Error, Op};
use series_core::int64::Int64Chunked;
use series_core::series::Series;

fn by(s: &str) -> Vec<u8> {
    s.as_bytes().to_vec()
}

fn col(name: &str, items: Vec<Option<Vec<u8>>>) -> BinaryChunked {
    BinaryChunked::from_options(name.to_string(), items)
}

#[test]
fn construct_and_len() {
    let c = col("a", vec![Some(by("x")), None, Some(by("yz"))]);
    assert_eq!(c.len(), 3);
    assert_eq!(c.name(), "a");
    assert_eq!(c.dtype(), DataType::Binary);
}

#[test]
fn get_checked_and_bounds() {
    let c = col("a", vec![Some(by("x")), None]);
    assert_eq!(c.get(0).unwrap(), Some(by("x")));
    assert_eq!(c.get(1).unwrap(), None);
    assert_eq!(
        c.get(2),
        Err(Error::OutOfBounds { op: Op::Get, index: 2, len: 2 })
    );
}

#[test]
fn rechunk_len_and_idempotence() {
    let mut c = col("a", vec![Some(by("x")), None]);
    let d = col("b", vec![Some(by("y"))]);
    c.append(&d);
    assert_eq!(c.len(), 3);
    assert_eq!(c.chunk_lengths(), vec![2, 1]);
    let r1 = c.rechunk();
    assert_eq!(r1.len(), c.len());
    assert_eq!(r1.chunk_lengths(), vec![3]);
    let r2 = r1.rechunk();
    assert_eq!(r2.chunk_lengths(), r1.chunk_lengths());
    assert_eq!(r2.get(0).unwrap(), Some(by("x")));
    assert_eq!(r2.get(1).unwrap(), None);
    assert_eq!(r2.get(2).unwrap(), Some(by("y")));
}

#[test]
fn append_recomputes_length_and_concatenates() {
    let mut c = col("a", vec![Some(by("x"))]);
    let d = col("b", vec![None, Some(by("z"))]);
    c.append(&d);
    assert_eq!(c.len(), 3);
    assert_eq!(c.get(1).unwrap(), None);
    assert_eq!(c.get(2).unwrap(), Some(by("z")));
}

#[test]
fn slice_basic_and_clamped() {
    let c = col("a", vec![Some(by("a")), Some(by("b")), Some(by("c")), None]);
    let s = c.slice(1, 2);
    assert_eq!(s.len(), 2);
    assert_eq!(s.get(0).unwrap(), Some(by("b")));
    assert_eq!(s.get(1).unwrap(), Some(by("c")));
    // length clamped to the remainder
    let t = c.slice(3, 10);
    assert_eq!(t.len(), 1);
    assert_eq!(t.get(0).unwrap(), None);
    // negative offset counts from the end
    let u = c.slice(-2, 2);
    assert_eq!(u.get(0).unwrap(), Some(by("c")));
    assert_eq!(u.get(1).unwrap(), None);
    // offset beyond the end yields an empty column
    let v = c.slice(9, 1);
    assert_eq!(v.len(), 0);
}

#[test]
fn filter_selects_and_rejects_bad_mask() {
    let c = col("a", vec![Some(by("a")), None, Some(by("c"))]);
    let kept = c.filter(&vec![true, false, true]).unwrap();
    assert_eq!(kept.len(), 2);
    assert_eq!(kept.get(0).unwrap(), Some(by("a")));
    assert_eq!(kept.get(1).unwrap(), Some(by("c")));
    assert_eq!(
        c.filter(&vec![true]).err().unwrap(),
        Error::LengthMismatch { op: Op::Filter, expected: 3, got: 1 }
    );
}

#[test]
fn take_valid_reproduces_subset() {
    let c = col("a", vec![Some(by("a")), None, Some(by("c")), Some(by("d"))]);
    let t = c.take(&vec![2, 0, 2]).unwrap();
    assert_eq!(t.len(), 3);
    assert_eq!(t.get(0).unwrap(), Some(by("c")));
    assert_eq!(t.get(1).unwrap(), Some(by("a")));
    assert_eq!(t.get(2).unwrap(), Some(by("c")));
    // the identity permutation reproduces the column
    let id = c.take(&vec![0, 1, 2, 3]).unwrap();
    for i in 0..4 {
        assert_eq!(id.get(i).unwrap(), c.get(i).unwrap());
    }
}

#[test]
fn take_out_of_bounds_errors() {
    let c = col("a", vec![Some(by("a")), None]);
    assert_eq!(
        c.take(&vec![0, 5]).err().unwrap(),
        Error::OutOfBounds { op: Op::Take, index: 5, len: 2 }
    );
}

#[test]
fn reverse_and_shift() {
    let c = col("a", vec![Some(by("a")), None, Some(by("c"))]);
    let r = c.reverse();
    assert_eq!(r.get(0).unwrap(), Some(by("c")));
    assert_eq!(r.get(1).unwrap(), None);
    assert_eq!(r.get(2).unwrap(), Some(by("a")));
    let s = c.shift(1);
    assert_eq!(s.len(), 3);
    assert_eq!(s.get(0).unwrap(), None);
    assert_eq!(s.get(1).unwrap(), Some(by("a")));
    assert_eq!(s.get(2).unwrap(), None);
    let t = c.shift(-2);
    assert_eq!(t.get(0).unwrap(), Some(by("c")));
    assert_eq!(t.get(1).unwrap(), None);
    assert_eq!(t.get(2).unwrap(), None);
}

#[test]
fn null_queries() {
    let c = col("a", vec![Some(by("a")), None, None]);
    assert_eq!(c.null_count(), 2);
    assert!(c.has_validity());
    assert_eq!(c.is_null(), vec![false, true, true]);
    assert_eq!(c.is_not_null(), vec![true, false, false]);
    let d = col("b", vec![Some(by("a"))]);
    assert_eq!(d.null_count(), 0);
    assert!(!d.has_validity());
}

#[test]
fn min_max_ignore_nulls() {
    let c = col("a", vec![None, Some(by("bb")), Some(by("ab")), None, Some(by("b"))]);
    assert_eq!(c.max_value(), Some(by("bb")));
    assert_eq!(c.min_value(), Some(by("ab")));
    let allnull = col("n", vec![None, None]);
    assert_eq!(allnull.max_value(), None);
    assert_eq!(allnull.min_value(), None);
}

#[test]
fn single_chunk_requires_rechunk() {
    let mut c = col("a", vec![Some(by("x"))]);
    let d = col("b", vec![Some(by("y"))]);
    c.append(&d);
    assert!(matches!(
        c.single_chunk(),
        Err(Error::MultipleChunks { op: Op::SingleChunk })
    ));
    let r = c.rechunk();
    assert!(r.single_chunk().is_ok());
}

#[test]
fn zip_with_mask() {
    let a = col("a", vec![Some(by("1")), Some(by("2")), None]);
    let b = col("b", vec![None, Some(by("y")), Some(by("z"))]);
    let z = a.zip_with_same_type(&vec![true, false, true], &b).unwrap();
    assert_eq!(z.get(0).unwrap(), Some(by("1")));
    assert_eq!(z.get(1).unwrap(), Some(by("y")));
    assert_eq!(z.get(2).unwrap(), None);
}

#[test]
fn new_from_index_repeats() {
    let c = col("a", vec![Some(by("q")), None]);
    let r = c.new_from_index(0, 3);
    assert_eq!(r.len(), 3);
    for i in 0..3 {
        assert_eq!(r.get(i).unwrap(), Some(by("q")));
    }
}

#[test]
fn series_append_type_mismatch_leaves_original() {
    let mut s = Series::Int64(Int64Chunked::new("n".to_string(), vec![Some(1), Some(2)]));
    let other = Series::Binary(col("b", vec![Some(by("ab"))]));
    let r = s.append(&other);
    assert_eq!(
        r,
        Err(Error::TypeMismatch {
            op: Op::Append,
            left: DataType::Int64,
            right: DataType::Binary
        })
    );
    // the original column is unmodified
    assert_eq!(s.len(), 2);
    assert_eq!(s.get(0).unwrap(), AnyValue::Int64(1));
    assert_eq!(s.get(1).unwrap(), AnyValue::Int64(2));
}

#[test]
fn series_append_same_type() {
    let mut s = Series::Binary(col("a", vec![Some(by("x"))]));
    let other = Series::Binary(col("b", vec![None]));
    assert!(s.append(&other).is_ok());
    assert_eq!(s.len(), 2);
    assert_eq!(s.get(1).unwrap(), AnyValue::Null);
}

#[test]
fn series_cast_rules() {
    let s = Series::Binary(col("a", vec![Some(by("x"))]));
    assert!(s.cast(DataType::Binary).is_ok());
    assert_eq!(
        s.cast(DataType::Int64).err().unwrap(),
        Error::CastUnsupported { from: DataType::Binary, to: DataType::Int64 }
    );
    let n = Series::Int64(Int64Chunked::new("n".to_string(), vec![Some(7)]));
    assert!(n.cast(DataType::Int64).is_ok());
    assert_eq!(
        n.cast(DataType::Binary).err().unwrap(),
        Error::CastUnsupported { from: DataType::Int64, to: DataType::Binary }
    );
}

#[test]
fn series_rename_and_clone_inner() {
    let mut s = Series::Binary(col("a", vec![Some(by("x"))]));
    s.rename("renamed".to_string());
    assert_eq!(s.name(), "renamed");
    let c = s.clone_inner();
    assert_eq!(c.name(), "renamed");
    assert_eq!(c.len(), 1);
    assert_eq!(c.get(0).unwrap(), AnyValue::Binary(by("x")));
}

#[test]
fn series_arithmetic_unsupported() {
    let s = Series::Binary(col("a", vec![Some(by("x"))]));
    let t = Series::Binary(col("b", vec![Some(by("y"))]));
    assert_eq!(
        s.subtract(&t).err().unwrap(),
        Error::Unsupported { op: Op::Arithmetic, dtype: DataType::Binary }
    );
    assert!(s.add_to(&t).is_err());
    assert!(s.multiply(&t).is_err());
    assert!(s.divide(&t).is_err());
    assert!(s.remainder(&t).is_err());
}

#[test]
fn series_equal_element_checked() {
    let s = Series::Binary(col("a", vec![Some(by("x")), None]));
    let t = Series::Binary(col("b", vec![None, Some(by("x"))]));
    assert_eq!(s.equal_element(0, &t, 1).unwrap(), true);
    assert_eq!(s.equal_element(1, &t, 0).unwrap(), true);
    assert_eq!(s.equal_element(0, &t, 0).unwrap(), false);
    assert!(s.equal_element(5, &t, 0).is_err());
}

#[test]
fn take_chunked_pairs() {
    let mut c = col("a", vec![Some(by("x")), None]);
    let d = col("b", vec![Some(by("y"))]);
    c.append(&d);
    // two chunks: [x, null] and [y]
    let t = c.take_chunked_unchecked(&vec![(1, 0), (0, 1), (0, 0)]);
    assert_eq!(t.len(), 3);
    assert_eq!(t.get(0).unwrap(), Some(by("y")));
    assert_eq!(t.get(1).unwrap(), None);
    assert_eq!(t.get(2).unwrap(), Some(by("x")));
    let o = c.take_opt_chunked_unchecked(&vec![Some((0, 0)), None]);
    assert_eq!(o.get(0).unwrap(), Some(by("x")));
    assert_eq!(o.get(1).unwrap(), None);
}
