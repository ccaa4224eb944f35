use n4::sort::stable_sort_by_key;

#[test]
fn sorts_ascending() {
    let items = vec![(3, "c"), (1, "a"), (2, "b")];
    assert_eq!(stable_sort_by_key(items), vec!["a", "b", "c"]);
}

#[test]
fn equal_keys_keep_their_order() {
    let items = vec![(2, "x"), (1, "first"), (2, "y"), (1, "second"), (2, "z")];
    assert_eq!(stable_sort_by_key(items), vec!["first", "second", "x", "y", "z"]);
}

#[test]
fn sorts_negative_keys_and_empty_lists() {
    let items = vec![(0, 'b'), (-5, 'a'), (7, 'c')];
    assert_eq!(stable_sort_by_key(items), vec!['a', 'b', 'c']);
    assert_eq!(stable_sort_by_key(Vec::<(i128, u8)>::new()), Vec::<u8>::new());
}
