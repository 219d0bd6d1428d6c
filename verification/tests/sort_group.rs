use series_core::chunked::BinaryChunked;
use series_core::sort::SortOptions;

fn by(s: &str) -> Vec<u8> {
    s.as_bytes().to_vec()
}

fn col(name: &str, items: Vec<Option<Vec<u8>>>) -> BinaryChunked {
    BinaryChunked::from_options(name.to_string(), items)
}

fn opts(descending: bool, nulls_last: bool) -> SortOptions {
    SortOptions { descending, nulls_last, multithreaded: false }
}

#[test]
fn arg_sort_nulls_last_ascending() {
    // values 3, 1, null, 2 as single-byte payloads
    let c = col(
        "a",
        vec![Some(vec![3u8]), Some(vec![1u8]), None, Some(vec![2u8])],
    );
    let p = c.arg_sort(opts(false, true));
    assert_eq!(p, vec![1, 3, 0, 2]);
}

#[test]
fn arg_sort_nulls_first_ascending() {
    let c = col(
        "a",
        vec![Some(vec![3u8]), Some(vec![1u8]), None, Some(vec![2u8])],
    );
    let p = c.arg_sort(opts(false, false));
    assert_eq!(p, vec![2, 1, 3, 0]);
}

#[test]
fn arg_sort_descending() {
    let c = col(
        "a",
        vec![Some(vec![3u8]), Some(vec![1u8]), None, Some(vec![2u8])],
    );
    let p = c.arg_sort(opts(true, true));
    assert_eq!(p, vec![0, 3, 1, 2]);
}

#[test]
fn arg_sort_is_stable() {
    let c = col(
        "a",
        vec![Some(by("b")), Some(by("a")), Some(by("b")), Some(by("a"))],
    );
    let p = c.arg_sort(opts(false, true));
    // equal keys keep their original relative order
    assert_eq!(p, vec![1, 3, 0, 2]);
}

#[test]
fn sort_with_orders_values_and_sets_flags() {
    let c = col("a", vec![Some(by("bb")), None, Some(by("a")), Some(by("ab"))]);
    let s = c.sort_with(opts(false, true));
    assert_eq!(s.get(0).unwrap(), Some(by("a")));
    assert_eq!(s.get(1).unwrap(), Some(by("ab")));
    assert_eq!(s.get(2).unwrap(), Some(by("bb")));
    assert_eq!(s.get(3).unwrap(), None);
    assert!(s.get_flags().sorted_ascending);
    assert!(!s.get_flags().sorted_descending);
    let d = c.sort_with(opts(true, false));
    assert!(d.get_flags().sorted_descending);
}

#[test]
fn group_tuples_binary_scenario() {
    // ["ab", null, "ab", "cd"]: exactly 3 groups, rows 0 and 2 together
    let c = col("a", vec![Some(by("ab")), None, Some(by("ab")), Some(by("cd"))]);
    let gp = c.group_tuples(false, true).unwrap();
    assert_eq!(gp.groups.len(), 3);
    assert_eq!(gp.groups[0], vec![0, 2]);
    assert_eq!(gp.groups[1], vec![1]);
    assert_eq!(gp.groups[2], vec![3]);
    let total: usize = gp.groups.iter().map(|g| g.len()).sum();
    assert_eq!(total, c.len());
}

#[test]
fn group_tuples_result_ignores_hints() {
    let c = col("a", vec![Some(by("x")), Some(by("y")), Some(by("x"))]);
    let a = c.group_tuples(false, false).unwrap();
    let b = c.group_tuples(true, true).unwrap();
    assert_eq!(a.groups, b.groups);
}

#[test]
fn n_unique_counts_null_as_one_value() {
    // two real distinct values plus one null group: 3
    let c = col("a", vec![Some(by("ab")), None, Some(by("ab")), Some(by("cd"))]);
    assert_eq!(c.n_unique().unwrap(), 3);
    let d = col("b", vec![None, None, None]);
    assert_eq!(d.n_unique().unwrap(), 1);
}

#[test]
fn arg_unique_first_occurrences() {
    let c = col("a", vec![Some(by("ab")), None, Some(by("ab")), Some(by("cd")), None]);
    assert_eq!(c.arg_unique().unwrap(), vec![0, 1, 3]);
}

#[test]
fn unique_values_in_first_occurrence_order() {
    let c = col("a", vec![Some(by("ab")), None, Some(by("ab")), Some(by("cd"))]);
    let u = c.unique().unwrap();
    assert_eq!(u.len(), 3);
    assert_eq!(u.get(0).unwrap(), Some(by("ab")));
    assert_eq!(u.get(1).unwrap(), None);
    assert_eq!(u.get(2).unwrap(), Some(by("cd")));
}

#[test]
fn unique_agrees_with_group_by_on_nulls() {
    // the same total equality drives unique and group-by
    let c = col("a", vec![None, Some(by("x")), None]);
    let gp = c.group_tuples(false, true).unwrap();
    assert_eq!(gp.groups.len(), c.n_unique().unwrap());
}

#[test]
fn empty_column_operations() {
    let c = col("a", vec![]);
    assert_eq!(c.len(), 0);
    assert_eq!(c.arg_sort(opts(false, true)), Vec::<usize>::new());
    assert_eq!(c.group_tuples(false, true).unwrap().groups.len(), 0);
    assert_eq!(c.n_unique().unwrap(), 0);
    assert_eq!(c.rechunk().len(), 0);
}

#[test]
fn arg_sort_multiple_lexicographic() {
    let k1 = col("k1", vec![Some(by("b")), Some(by("a")), Some(by("b")), Some(by("a"))]);
    let k2 = col("k2", vec![Some(by("1")), Some(by("2")), Some(by("0")), Some(by("1"))]);
    let p = k1
        .arg_sort_multiple(&vec![k2], &vec![false, false], true)
        .unwrap();
    assert_eq!(p, vec![3, 1, 2, 0]);
}

#[test]
fn arg_sort_multiple_mixed_directions() {
    let k1 = col("k1", vec![Some(by("b")), Some(by("a")), Some(by("b")), Some(by("a"))]);
    let k2 = col("k2", vec![Some(by("1")), Some(by("2")), Some(by("0")), Some(by("1"))]);
    let p = k1
        .arg_sort_multiple(&vec![k2], &vec![false, true], true)
        .unwrap();
    assert_eq!(p, vec![1, 3, 0, 2]);
}

#[test]
fn arg_sort_multiple_rejects_bad_shapes() {
    let k1 = col("k1", vec![Some(by("b")), Some(by("a"))]);
    let k2 = col("k2", vec![Some(by("1"))]);
    // one direction per key is required
    assert!(k1.arg_sort_multiple(&vec![], &vec![false, false], true).is_err());
    // keys must agree in length
    assert!(k1.arg_sort_multiple(&vec![k2], &vec![false, false], true).is_err());
}

#[test]
fn agg_list_gathers_groups() {
    let c = col("a", vec![Some(by("ab")), None, Some(by("ab")), Some(by("cd"))]);
    let gp = c.group_tuples(false, true).unwrap();
    let lists = c.agg_list(&gp);
    assert_eq!(lists.len(), 3);
    assert_eq!(lists[0].len(), 2);
    assert_eq!(lists[0].get(0).unwrap(), Some(by("ab")));
    assert_eq!(lists[0].get(1).unwrap(), Some(by("ab")));
    assert_eq!(lists[1].get(0).unwrap(), None);
    assert_eq!(lists[2].get(0).unwrap(), Some(by("cd")));
}
