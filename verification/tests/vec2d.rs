use hmpc_rs::vec2d::Vec2d;

#[test]
fn inner() {
    let v = Vec2d::from_inner(vec![1, 2, 3]);
    assert_eq!(v.len(), 3);
    assert_eq!(v.outer_extent(), 1);
    assert_eq!(v.inner_extent(), 3);
}

#[test]
fn iter() {
    const EMPTY: &[i32] = &[];

    let v = Vec2d::from(vec![1, 2, 3, 4, 5, 6], 3, 2);
    assert_eq!(v.len(), 6);
    assert_eq!(v.inner_extent(), 2);
    assert_eq!(v.outer_extent(), 3);

    assert_eq!(v.row(0), [1, 2].as_slice());
    assert_eq!(v.row(1), [3, 4].as_slice());
    assert_eq!(v.row(2), [5, 6].as_slice());
    let after_rows: &[i32] = &v.iter_elements()[6..];
    assert_eq!(after_rows, EMPTY);
}

#[test]
fn elements_stay_flat() {
    let v = Vec2d::from(vec![7u32, 8, 9, 10], 2, 2);
    assert_eq!(*v.get(0), 7);
    assert_eq!(*v.get(3), 10);
    assert_eq!(v.iter_elements().as_slice(), &[7, 8, 9, 10]);
    assert_eq!(v.into_iter_elements(), vec![7, 8, 9, 10]);
}
