use ddprof_profiles::ffi_vec::Vec;

#[test]
fn test_default() {
    let vec: Vec<u8> = Vec::default();
    assert_eq!(vec.len(), 0);
    assert_eq!(vec.capacity(), 0);
}

#[test]
fn test_from() {
    let vec = vec![0];

    let mut ffi_vec: Vec<u8> = Vec::from_vec(vec);
    ffi_vec.push(1);
    assert_eq!(ffi_vec.len(), 2);
    assert!(ffi_vec.capacity() >= 2);
}

#[test]
fn test_as_slice() {
    let mut ffi_vec: Vec<u8> = Vec::default();
    ffi_vec.push(1);
    ffi_vec.push(2);
    assert_eq!(ffi_vec.len(), 2);
    assert!(ffi_vec.capacity() >= 2);

    let slice = ffi_vec.as_slice();
    let [first, second]: [_; 2] = slice.try_into().expect("slice to have 2 items");
    assert_eq!(first, 1);
    assert_eq!(second, 2);
}

#[test]
fn test_iter() {
    let vec = vec![0, 2, 4, 6];
    let ffi_vec: Vec<u8> = Vec::from_vec(vec.clone());

    for (a, b) in vec.iter().zip(ffi_vec.as_slice().iter()) {
        assert_eq!(a, b)
    }
}

#[test]
fn ffi_vec_get_and_last() {
    let mut v: Vec<i64> = Vec::default();
    assert!(v.is_empty());
    assert_eq!(v.last(), None);
    v.push(7);
    v.push(9);
    assert!(!v.is_empty());
    assert_eq!(v.get(0), Some(&7));
    assert_eq!(v.get(2), None);
    assert_eq!(v.last(), Some(&9));
    assert_eq!(v.into_vec(), vec![7, 9]);
}
