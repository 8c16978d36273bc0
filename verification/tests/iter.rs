use index_map::IndexMap;

#[test]
fn test_iter() {
    let mut map = IndexMap::new();
    let a = map.insert("a");
    let b = map.insert("b");
    let c = map.insert("c");
    map.remove(b);

    let mut iter = map.iter();
    assert_eq!(iter.next().map(|(i, v)| (i, *v)), Some((a, "a")));
    assert_eq!(iter.next().map(|(i, v)| (i, *v)), Some((c, "c")));
    assert_eq!(iter.next().map(|(i, v)| (i, *v)), None);

    assert_eq!(b, map.insert("b"));
    let mut iter = map.iter();
    assert_eq!(iter.next().map(|(i, v)| (i, *v)), Some((a, "a")));
    assert_eq!(iter.next().map(|(i, v)| (i, *v)), Some((b, "b")));
    assert_eq!(iter.next().map(|(i, v)| (i, *v)), Some((c, "c")));
    assert_eq!(iter.next().map(|(i, v)| (i, *v)), None);
}

#[test]
fn test_iter_mut() {
    let mut map = IndexMap::new();
    let a = map.insert(1);
    let b = map.insert(2);
    let c = map.insert(3);

    let mut iter = map.iter_mut();
    while let Some((_, val)) = iter.next() {
        *val *= 2;
    }

    let mut entries = map.iter();
    assert_eq!(entries.next().map(|(i, v)| (i, *v)), Some((a, 2)));
    assert_eq!(entries.next().map(|(i, v)| (i, *v)), Some((b, 4)));
    assert_eq!(entries.next().map(|(i, v)| (i, *v)), Some((c, 6)));
    assert_eq!(entries.next().map(|(i, v)| (i, *v)), None);
}

#[test]
fn iter_test_keys() {
    let mut map = IndexMap::new();
    let a = map.insert("a");
    let b = map.insert("b");
    let c = map.insert("c");
    map.remove(b);

    let mut keys = map.keys();
    assert_eq!(keys.next(), Some(a));
    assert_eq!(keys.next(), Some(c));
    assert_eq!(keys.next(), None);

    assert_eq!(b, map.insert("b"));

    let mut keys = map.keys();
    assert_eq!(keys.next(), Some(a));
    assert_eq!(keys.next(), Some(b));
    assert_eq!(keys.next(), Some(c));
    assert_eq!(keys.next(), None);
}

#[test]
fn iter_test_values() {
    let mut map = IndexMap::new();
    map.insert("a");
    let b = map.insert("b");
    map.insert("c");
    map.remove(b);

    let mut iter = map.values();
    assert_eq!(iter.next().map(|v| *v), Some("a"));
    assert_eq!(iter.next().map(|v| *v), Some("c"));
    assert_eq!(iter.next().map(|v| *v), None);

    assert_eq!(b, map.insert("b"));
    let mut iter = map.values();
    assert_eq!(iter.next().map(|v| *v), Some("a"));
    assert_eq!(iter.next().map(|v| *v), Some("b"));
    assert_eq!(iter.next().map(|v| *v), Some("c"));
    assert_eq!(iter.next().map(|v| *v), None);
}

#[test]
fn iter_test_values_mut() {
    let mut map = IndexMap::new();
    map.insert(1);
    map.insert(2);
    map.insert(3);

    let mut values = map.values_mut();
    while let Some(val) = values.next() {
        *val *= 2;
    }

    let mut iter = map.values();
    assert_eq!(iter.next().map(|v| *v), Some(2));
    assert_eq!(iter.next().map(|v| *v), Some(4));
    assert_eq!(iter.next().map(|v| *v), Some(6));
    assert_eq!(iter.next().map(|v| *v), None);
}
